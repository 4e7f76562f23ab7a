//! Resource records and their typed payloads.

use vstd::prelude::*;
use vstd::utf8::{decode_utf8, encode_utf8, valid_utf8};
use crate::compression::{
    decompress_name, lemma_name_wire_len, name_read, name_wire, Reader, ReaderState, Wire, Writer,
};
use crate::name::{check_name, name_fault};
use crate::text::string_of;
use crate::wire::{be16, be32, u16_at, u32_at, WireError};

verus! {

/// The type code of an IPv4 address record.
pub const TYPE_A: u16 = 1;

/// The type code of a name-server record.
pub const TYPE_NS: u16 = 2;

/// The type code of a canonical-name record.
pub const TYPE_CNAME: u16 = 5;

/// The type code of a start-of-authority record.
pub const TYPE_SOA: u16 = 6;

/// The type code of a mail-exchange record.
pub const TYPE_MX: u16 = 15;

/// The type code of a text record.
pub const TYPE_TXT: u16 = 16;

/// The type code of an IPv6 address record.
pub const TYPE_AAAA: u16 = 28;

/// The longest text payload, in octets.
pub const MAX_TXT: usize = 255;

/// The longest payload, in octets.
pub const MAX_RDATA: usize = 65535;

/// The payload of a record.
#[derive(Debug, PartialEq, Eq)]
pub enum RData {
    /// An IPv4 address, as its four octets.
    A([u8; 4]),
    /// An IPv6 address, as its sixteen octets.
    AAAA([u8; 16]),
    /// A canonical name.
    CNAME(String),
    /// A mail exchange and its preference.
    MX { preference: u16, exchange: String },
    /// A name server.
    NS(String),
    /// The start of a zone of authority.
    SOA {
        mname: String,
        rname: String,
        serial: u32,
        refresh: u32,
        retry: u32,
        expire: u32,
        minimum: u32,
    },
    /// A text.
    TXT(String),
    /// The octets of a payload of any other type.
    Raw(Vec<u8>),
}

/// A payload as mathematics.
pub enum RDataView {
    A(Seq<u8>),
    AAAA(Seq<u8>),
    CNAME(Seq<char>),
    MX { preference: u16, exchange: Seq<char> },
    NS(Seq<char>),
    SOA {
        mname: Seq<char>,
        rname: Seq<char>,
        serial: u32,
        refresh: u32,
        retry: u32,
        expire: u32,
        minimum: u32,
    },
    TXT(Seq<char>),
    Raw(Seq<u8>),
}

impl View for RData {
    type V = RDataView;

    open spec fn view(&self) -> RDataView {
        match *self {
            RData::A(a) => RDataView::A(a@),
            RData::AAAA(a) => RDataView::AAAA(a@),
            RData::CNAME(n) => RDataView::CNAME(n@),
            RData::MX { preference, exchange } => RDataView::MX { preference, exchange: exchange@ },
            RData::NS(n) => RDataView::NS(n@),
            RData::SOA { mname, rname, serial, refresh, retry, expire, minimum } => RDataView::SOA {
                mname: mname@,
                rname: rname@,
                serial,
                refresh,
                retry,
                expire,
                minimum,
            },
            RData::TXT(s) => RDataView::TXT(s@),
            RData::Raw(b) => RDataView::Raw(b@),
        }
    }
}

/// A resource record: owner, type, class, time to live and payload.
#[derive(Debug, PartialEq, Eq)]
pub struct Record {
    pub name: String,
    pub rtype: u16,
    pub rclass: u16,
    pub ttl: u32,
    pub rdata: RData,
}

/// A record as mathematics.
pub struct RecordView {
    pub name: Seq<char>,
    pub rtype: u16,
    pub rclass: u16,
    pub ttl: u32,
    pub rdata: RDataView,
}

impl View for Record {
    type V = RecordView;

    open spec fn view(&self) -> RecordView {
        RecordView {
            name: self.name@,
            rtype: self.rtype,
            rclass: self.rclass,
            ttl: self.ttl,
            rdata: self.rdata@,
        }
    }
}

impl Clone for RData {
    fn clone(&self) -> (r: RData)
        ensures
            r@ == self@,
    {
        match self {
            RData::A(a) => RData::A(*a),
            RData::AAAA(a) => RData::AAAA(*a),
            RData::CNAME(n) => RData::CNAME(n.clone()),
            RData::MX { preference, exchange } => RData::MX {
                preference: *preference,
                exchange: exchange.clone(),
            },
            RData::NS(n) => RData::NS(n.clone()),
            RData::SOA { mname, rname, serial, refresh, retry, expire, minimum } => RData::SOA {
                mname: mname.clone(),
                rname: rname.clone(),
                serial: *serial,
                refresh: *refresh,
                retry: *retry,
                expire: *expire,
                minimum: *minimum,
            },
            RData::TXT(s) => RData::TXT(s.clone()),
            RData::Raw(b) => RData::Raw(vstd::slice::slice_to_vec(b.as_slice())),
        }
    }
}

impl Clone for Record {
    fn clone(&self) -> (r: Record)
        ensures
            r@ == self@,
    {
        Record {
            name: self.name.clone(),
            rtype: self.rtype,
            rclass: self.rclass,
            ttl: self.ttl,
            rdata: self.rdata.clone(),
        }
    }
}

/// What reading a record refuses.
#[derive(Debug, Clone, Copy, PartialEq, Eq, Structural)]
pub enum RecordError {
    /// The payload of a record of this type has not the length that the
    /// type asks for.
    InvalidRDataLength(u16),
    /// The octets of a text payload are not valid UTF-8.
    InvalidUTF8,
    /// A fault of the wire format below the record.
    Wire(WireError),
}

/// The first fault of two, if there is one.
pub open spec fn or_fault(a: Option<WireError>, b: Option<WireError>) -> Option<WireError> {
    match a {
        Some(e) => Some(e),
        None => b,
    }
}

/// Why a payload cannot be written, if it cannot: the fault of a name in
/// it, a text of more than 255 octets, or more than 65535 opaque octets.
pub open spec fn rdata_fault(d: RDataView) -> Option<WireError> {
    match d {
        RDataView::A(_) => None,
        RDataView::AAAA(_) => None,
        RDataView::CNAME(n) => name_fault(encode_utf8(n)),
        RDataView::MX { preference, exchange } => name_fault(encode_utf8(exchange)),
        RDataView::NS(n) => name_fault(encode_utf8(n)),
        RDataView::SOA { mname, rname, serial, refresh, retry, expire, minimum } => or_fault(
            name_fault(encode_utf8(mname)),
            name_fault(encode_utf8(rname)),
        ),
        RDataView::TXT(s) => if encode_utf8(s).len() > MAX_TXT {
            Some(WireError::TextTooLong)
        } else {
            None
        },
        RDataView::Raw(b) => if b.len() > MAX_RDATA {
            Some(WireError::RDataTooLong)
        } else {
            None
        },
    }
}

/// A payload written at offset `at`. Addresses and opaque payloads stand as
/// they are, a text behind one octet of length, names as names, integers
/// most significant octet first.
pub open spec fn rdata_wire(names: Map<Seq<u8>, int>, at: int, d: RDataView) -> Wire {
    match d {
        RDataView::A(a) => Wire { bytes: a, names },
        RDataView::AAAA(a) => Wire { bytes: a, names },
        RDataView::CNAME(n) => name_wire(names, at, encode_utf8(n)),
        RDataView::MX { preference, exchange } => {
            let name = name_wire(names, at + 2, encode_utf8(exchange));
            Wire { bytes: be16(preference) + name.bytes, names: name.names }
        },
        RDataView::NS(n) => name_wire(names, at, encode_utf8(n)),
        RDataView::SOA { mname, rname, serial, refresh, retry, expire, minimum } => {
            let m = name_wire(names, at, encode_utf8(mname));
            let r = name_wire(m.names, at + m.bytes.len(), encode_utf8(rname));
            Wire {
                bytes: m.bytes + r.bytes + be32(serial) + be32(refresh) + be32(retry) + be32(expire)
                    + be32(minimum),
                names: r.names,
            }
        },
        RDataView::TXT(s) => Wire {
            bytes: seq![encode_utf8(s).len() as u8] + encode_utf8(s),
            names,
        },
        RDataView::Raw(b) => Wire { bytes: b, names },
    }
}

/// Why a record cannot be written, if it cannot: the fault of its owner
/// name, or else that of its payload.
pub open spec fn record_fault(rec: RecordView) -> Option<WireError> {
    or_fault(name_fault(encode_utf8(rec.name)), rdata_fault(rec.rdata))
}

/// A record written at offset `at`: owner, type, class, time to live, the
/// length of the payload in 16 bits, and the payload.
pub open spec fn record_wire(names: Map<Seq<u8>, int>, at: int, rec: RecordView) -> Wire {
    let owner = name_wire(names, at, encode_utf8(rec.name));
    let fixed = owner.bytes + be16(rec.rtype) + be16(rec.rclass) + be32(rec.ttl);
    let data = rdata_wire(owner.names, at + fixed.len() + 2, rec.rdata);
    Wire { bytes: fixed + be16(data.bytes.len() as u16) + data.bytes, names: data.names }
}

/// What reading a payload of type `rtype` gives, from a reader whose bounds
/// are those of the payload: the payload and the table of names behind it,
/// or the fault. Names in it are read with the offsets of the whole message.
/// What a name leaves of the payload is passed over.
pub open spec fn rdata_read(r: ReaderState, rtype: u16) -> Result<
    (RDataView, Map<int, Seq<u8>>),
    RecordError,
> {
    let n = r.end - r.pos;
    if rtype == TYPE_A {
        if n != 4 {
            Err(RecordError::InvalidRDataLength(rtype))
        } else {
            Ok((RDataView::A(r.buf.subrange(r.pos, r.end)), r.names))
        }
    } else if rtype == TYPE_AAAA {
        if n != 16 {
            Err(RecordError::InvalidRDataLength(rtype))
        } else {
            Ok((RDataView::AAAA(r.buf.subrange(r.pos, r.end)), r.names))
        }
    } else if rtype == TYPE_CNAME {
        match name_read(r) {
            Err(e) => Err(RecordError::Wire(e)),
            Ok((text, r1)) => Ok((RDataView::CNAME(decode_utf8(text)), r1.names)),
        }
    } else if rtype == TYPE_NS {
        match name_read(r) {
            Err(e) => Err(RecordError::Wire(e)),
            Ok((text, r1)) => Ok((RDataView::NS(decode_utf8(text)), r1.names)),
        }
    } else if rtype == TYPE_MX {
        if n < 3 {
            Err(RecordError::InvalidRDataLength(rtype))
        } else {
            match name_read(r.skip(2)) {
                Err(e) => Err(RecordError::Wire(e)),
                Ok((text, r1)) => Ok(
                    (
                        RDataView::MX {
                            preference: u16_at(r.buf, r.pos),
                            exchange: decode_utf8(text),
                        },
                        r1.names,
                    ),
                ),
            }
        }
    } else if rtype == TYPE_SOA {
        match name_read(r) {
            Err(e) => Err(RecordError::Wire(e)),
            Ok((mname, r1)) => match name_read(r1) {
                Err(e) => Err(RecordError::Wire(e)),
                Ok((rname, r2)) => if !r2.has(20) {
                    Err(RecordError::Wire(WireError::Truncated))
                } else {
                    Ok(
                        (
                            RDataView::SOA {
                                mname: decode_utf8(mname),
                                rname: decode_utf8(rname),
                                serial: u32_at(r.buf, r2.pos),
                                refresh: u32_at(r.buf, r2.pos + 4),
                                retry: u32_at(r.buf, r2.pos + 8),
                                expire: u32_at(r.buf, r2.pos + 12),
                                minimum: u32_at(r.buf, r2.pos + 16),
                            },
                            r2.names,
                        ),
                    )
                },
            },
        }
    } else if rtype == TYPE_TXT {
        if n < 1 || r.buf[r.pos] != n - 1 {
            Err(RecordError::InvalidRDataLength(rtype))
        } else if !valid_utf8(r.buf.subrange(r.pos + 1, r.end)) {
            Err(RecordError::InvalidUTF8)
        } else {
            Ok((RDataView::TXT(decode_utf8(r.buf.subrange(r.pos + 1, r.end))), r.names))
        }
    } else {
        Ok((RDataView::Raw(r.buf.subrange(r.pos, r.end)), r.names))
    }
}

/// What reading a record gives: the record and the reader behind it, or the
/// fault. The payload is read within the length that the record states for
/// it, and the reader goes on behind that length.
pub open spec fn record_read(r: ReaderState) -> Result<(RecordView, ReaderState), RecordError> {
    match name_read(r) {
        Err(e) => Err(RecordError::Wire(e)),
        Ok((owner, r1)) => {
            let rtype = u16_at(r.buf, r1.pos);
            let rdlength = u16_at(r.buf, r1.pos + 8);
            let r2 = r1.skip(10);
            if !r1.has(10) || !r2.has(rdlength as int) {
                Err(RecordError::Wire(WireError::Truncated))
            } else {
                match rdata_read(r2.narrow(rdlength as int), rtype) {
                    Err(e) => Err(e),
                    Ok((rdata, names)) => Ok(
                        (
                            RecordView {
                                name: decode_utf8(owner),
                                rtype,
                                rclass: u16_at(r.buf, r1.pos + 2),
                                ttl: u32_at(r.buf, r1.pos + 4),
                                rdata,
                            },
                            ReaderState {
                                buf: r.buf,
                                pos: r2.pos + rdlength,
                                end: r.end,
                                names,
                            },
                        ),
                    ),
                }
            }
        },
    }
}

/// A result of the wire format below as a result of reading a record.
pub fn lift<T>(r: Result<T, WireError>) -> (l: Result<T, RecordError>)
    ensures
        match r {
            Ok(v) => l == Ok::<T, RecordError>(v),
            Err(e) => l == Err::<T, RecordError>(RecordError::Wire(e)),
        },
{
    match r {
        Ok(v) => Ok(v),
        Err(e) => Err(RecordError::Wire(e)),
    }
}

/// Why the text of a name cannot be written, if it cannot.
fn name_text_fault(name: &String) -> (r: Option<WireError>)
    ensures
        r == name_fault(encode_utf8(name@)),
{
    check_name(name.as_str().as_bytes())
}

/// Writes a name that has no fault.
fn put_name_text(writer: &mut Writer, name: &String)
    requires
        old(writer).wf(),
        name_fault(encode_utf8(name@)) is None,
    ensures
        final(writer).wf(),
        final(writer)@ == old(writer)@.put(
            name_wire(old(writer)@.names, old(writer)@.at(), encode_utf8(name@)),
        ),
        final(writer)@.bytes.len() - old(writer)@.bytes.len() <= 255,
{
    proof {
        lemma_name_wire_len(writer@.names, writer@.at(), encode_utf8(name@));
    }
    writer.put_name(name.as_str().as_bytes());
}

/// Reads a name as a string.
fn take_name_text(reader: &mut Reader) -> (r: Result<String, RecordError>)
    requires
        old(reader).wf(),
    ensures
        final(reader).wf(),
        match name_read(old(reader)@) {
            Ok((text, state)) => r is Ok && r->Ok_0@ == decode_utf8(text) && final(reader)@
                == state,
            Err(e) => r == Err::<String, RecordError>(RecordError::Wire(e)) && final(reader)@
                == old(reader)@,
        },
{
    broadcast use vstd::utf8::encode_utf8_decode_utf8;

    lift(decompress_name(reader))
}

impl RData {
    /// Why the payload cannot be written, if it cannot.
    pub fn fault(&self) -> (r: Option<WireError>)
        ensures
            r == rdata_fault(self@),
    {
        match self {
            RData::A(_) => None,
            RData::AAAA(_) => None,
            RData::CNAME(n) => name_text_fault(n),
            RData::MX { preference: _, exchange } => name_text_fault(exchange),
            RData::NS(n) => name_text_fault(n),
            RData::SOA { mname, rname, serial: _, refresh: _, retry: _, expire: _, minimum: _ } => {
                match name_text_fault(mname) {
                    Some(e) => Some(e),
                    None => name_text_fault(rname),
                }
            },
            RData::TXT(s) => if s.as_str().as_bytes().len() > MAX_TXT {
                Some(WireError::TextTooLong)
            } else {
                None
            },
            RData::Raw(b) => if b.len() > MAX_RDATA {
                Some(WireError::RDataTooLong)
            } else {
                None
            },
        }
    }

    /// Writes the payload, which has no fault.
    #[verifier::rlimit(40)]
    fn put(&self, writer: &mut Writer)
        requires
            old(writer).wf(),
            rdata_fault(self@) is None,
        ensures
            final(writer).wf(),
            final(writer)@ == old(writer)@.put(
                rdata_wire(old(writer)@.names, old(writer)@.at(), self@),
            ),
            final(writer)@.bytes.len() - old(writer)@.bytes.len() <= MAX_RDATA,
    {
        match self {
            RData::A(a) => {
                writer.put_bytes(a.as_slice());
            },
            RData::AAAA(a) => {
                writer.put_bytes(a.as_slice());
            },
            RData::CNAME(n) => {
                put_name_text(writer, n);
            },
            RData::MX { preference, exchange } => {
                writer.put_u16(*preference);
                put_name_text(writer, exchange);
                assert(writer@ =~= old(writer)@.put(
                    rdata_wire(old(writer)@.names, old(writer)@.at(), self@),
                ));
            },
            RData::NS(n) => {
                put_name_text(writer, n);
            },
            RData::SOA { mname, rname, serial, refresh, retry, expire, minimum } => {
                put_name_text(writer, mname);
                put_name_text(writer, rname);
                writer.put_u32(*serial);
                writer.put_u32(*refresh);
                writer.put_u32(*retry);
                writer.put_u32(*expire);
                writer.put_u32(*minimum);
                assert(writer@ =~= old(writer)@.put(
                    rdata_wire(old(writer)@.names, old(writer)@.at(), self@),
                ));
            },
            RData::TXT(s) => {
                let text = s.as_str().as_bytes();
                writer.put_u8(text.len() as u8);
                writer.put_bytes(text);
                assert(writer@ =~= old(writer)@.put(
                    rdata_wire(old(writer)@.names, old(writer)@.at(), self@),
                ));
            },
            RData::Raw(b) => {
                writer.put_bytes(b.as_slice());
            },
        }
    }

    /// Reads a payload of type `rtype` from a reader whose bounds are those
    /// of the payload.
    fn read(reader: &mut Reader, rtype: u16) -> (r: Result<RData, RecordError>)
        requires
            old(reader).wf(),
        ensures
            final(reader).wf(),
            final(reader)@.buf == old(reader)@.buf,
            final(reader)@.end == old(reader)@.end,
            match rdata_read(old(reader)@, rtype) {
                Ok((d, names)) => r is Ok && r->Ok_0@ == d && final(reader)@.names == names,
                Err(e) => r is Err && r->Err_0 == e,
            },
    {
        let n: usize = reader.remaining();
        if rtype == TYPE_A {
            if n != 4 {
                return Err(RecordError::InvalidRDataLength(rtype));
            }
            let b = lift(reader.read_bytes(4))?;
            let a: [u8; 4] = [b[0], b[1], b[2], b[3]];
            assert(a@ =~= b@);
            Ok(RData::A(a))
        } else if rtype == TYPE_AAAA {
            if n != 16 {
                return Err(RecordError::InvalidRDataLength(rtype));
            }
            let b = lift(reader.read_bytes(16))?;
            let a: [u8; 16] = [
                b[0],
                b[1],
                b[2],
                b[3],
                b[4],
                b[5],
                b[6],
                b[7],
                b[8],
                b[9],
                b[10],
                b[11],
                b[12],
                b[13],
                b[14],
                b[15],
            ];
            assert(a@ =~= b@);
            Ok(RData::AAAA(a))
        } else if rtype == TYPE_CNAME {
            let name = take_name_text(reader)?;
            Ok(RData::CNAME(name))
        } else if rtype == TYPE_NS {
            let name = take_name_text(reader)?;
            Ok(RData::NS(name))
        } else if rtype == TYPE_MX {
            if n < 3 {
                return Err(RecordError::InvalidRDataLength(rtype));
            }
            let preference = lift(reader.read_u16())?;
            let exchange = take_name_text(reader)?;
            Ok(RData::MX { preference, exchange })
        } else if rtype == TYPE_SOA {
            let mname = take_name_text(reader)?;
            let rname = take_name_text(reader)?;
            if reader.remaining() < 20 {
                return Err(RecordError::Wire(WireError::Truncated));
            }
            let serial = lift(reader.read_u32())?;
            let refresh = lift(reader.read_u32())?;
            let retry = lift(reader.read_u32())?;
            let expire = lift(reader.read_u32())?;
            let minimum = lift(reader.read_u32())?;
            Ok(RData::SOA { mname, rname, serial, refresh, retry, expire, minimum })
        } else if rtype == TYPE_TXT {
            let b = lift(reader.read_bytes(n))?;
            if n < 1 || b[0] as usize != n - 1 {
                return Err(RecordError::InvalidRDataLength(rtype));
            }
            let text = vstd::slice::slice_subrange(b.as_slice(), 1, n);
            assert(text@ =~= old(reader)@.buf.subrange(old(reader)@.pos + 1, old(reader)@.end));
            broadcast use vstd::utf8::encode_utf8_decode_utf8;

            match string_of(text) {
                Some(s) => Ok(RData::TXT(s)),
                None => Err(RecordError::InvalidUTF8),
            }
        } else {
            let b = lift(reader.read_bytes(n))?;
            Ok(RData::Raw(b))
        }
    }
}

impl Record {
    /// Why the record cannot be written, if it cannot.
    pub fn fault(&self) -> (r: Option<WireError>)
        ensures
            r == record_fault(self@),
    {
        match name_text_fault(&self.name) {
            Some(e) => Some(e),
            None => self.rdata.fault(),
        }
    }

    /// Writes the record, which has no fault. The length of the payload is
    /// filled in once the payload stands, so that it is the length of what
    /// was written.
    pub fn put(&self, writer: &mut Writer)
        requires
            old(writer).wf(),
            record_fault(self@) is None,
        ensures
            final(writer).wf(),
            final(writer)@ == old(writer)@.put(
                record_wire(old(writer)@.names, old(writer)@.at(), self@),
            ),
    {
        put_name_text(writer, &self.name);
        writer.put_u16(self.rtype);
        writer.put_u16(self.rclass);
        writer.put_u32(self.ttl);
        let at: usize = writer.reserve_u16();
        self.rdata.put(writer);
        let n: usize = writer.len() - at - 2;
        writer.fill_u16(at, n as u16);
        assert(writer@ =~= old(writer)@.put(
            record_wire(old(writer)@.names, old(writer)@.at(), self@),
        ));
    }

    /// Reads a record: owner, type, class, time to live, the length of the
    /// payload, and the payload by its type. A payload of a type that is not
    /// known is kept as its octets. A record that is read is sound: its
    /// payload is that of its type, and it can be written again.
    pub fn read(reader: &mut Reader) -> (r: Result<Record, RecordError>)
        requires
            old(reader).wf(),
        ensures
            final(reader).wf(),
            final(reader)@.buf == old(reader)@.buf,
            final(reader)@.end == old(reader)@.end,
            match record_read(old(reader)@) {
                Ok((rec, state)) => r is Ok && r->Ok_0@ == rec && final(reader)@ == state,
                Err(e) => r is Err && r->Err_0 == e,
            },
            r is Ok ==> crate::roundtrip::record_sound(r->Ok_0@),
    {
        proof {
            crate::roundtrip::lemma_record_read_sound(reader@);
        }
        let name = take_name_text(reader)?;
        if reader.remaining() < 10 {
            return Err(RecordError::Wire(WireError::Truncated));
        }
        let rtype = lift(reader.read_u16())?;
        let rclass = lift(reader.read_u16())?;
        let ttl = lift(reader.read_u32())?;
        let rdlength = lift(reader.read_u16())?;
        if reader.remaining() < rdlength as usize {
            return Err(RecordError::Wire(WireError::Truncated));
        }
        let outer: usize = reader.narrow(rdlength as usize);
        let read = RData::read(reader, rtype);
        reader.leave(outer);
        match read {
            Err(e) => Err(e),
            Ok(rdata) => {
                assert(reader@ =~= record_read(old(reader)@)->Ok_0.1);
                Ok(Record { name, rtype, rclass, ttl, rdata })
            },
        }
    }

    /// Writes the record, unless it has a fault: then nothing is written.
    pub fn write(&self, writer: &mut Writer) -> (r: Result<(), WireError>)
        requires
            old(writer).wf(),
        ensures
            final(writer).wf(),
            match record_fault(self@) {
                Some(e) => r == Err::<(), WireError>(e) && final(writer)@ == old(writer)@,
                None => r is Ok && final(writer)@ == old(writer)@.put(
                    record_wire(old(writer)@.names, old(writer)@.at(), self@),
                ),
            },
    {
        match self.fault() {
            Some(e) => Err(e),
            None => {
                self.put(writer);
                Ok(())
            },
        }
    }
}

} // verus!
