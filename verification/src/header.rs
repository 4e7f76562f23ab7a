//! The fixed twelve octets that open every message.

use vstd::prelude::*;
use crate::compression::{Reader, ReaderState, Writer};
use crate::wire::{be16, u16_at, WireError};

verus! {

/// The octets that a header takes.
pub const HEADER_LEN: usize = 12;

/// The header of a message: its id, its flags and codes, and how many
/// entries each of the four sections holds.
#[derive(Debug, Clone, Copy, PartialEq, Eq)]
pub struct Header {
    pub id: u16,
    pub qr: bool,
    pub opcode: u8,
    pub aa: bool,
    pub tc: bool,
    pub rd: bool,
    pub ra: bool,
    pub z: u8,
    pub rcode: u8,
    pub qdcount: u16,
    pub ancount: u16,
    pub nscount: u16,
    pub arcount: u16,
}

/// One flag as the number it adds to its octet.
pub open spec fn bit(flag: bool, weight: int) -> int {
    if flag {
        weight
    } else {
        0
    }
}

/// The first octet of flags: QR, four bits of opcode, AA, TC, RD.
pub open spec fn flags_hi(h: Header) -> u8 {
    (bit(h.qr, 128) + (h.opcode % 16) * 8 + bit(h.aa, 4) + bit(h.tc, 2) + bit(h.rd, 1)) as u8
}

/// The second octet of flags: RA, three reserved bits, four bits of
/// response code.
pub open spec fn flags_lo(h: Header) -> u8 {
    (bit(h.ra, 128) + (h.z % 8) * 16 + h.rcode % 16) as u8
}

/// The twelve octets of a header. Of the opcode and the response code the
/// low four bits are written, of the reserved field the low three.
pub open spec fn header_bytes(h: Header) -> Seq<u8> {
    be16(h.id) + seq![flags_hi(h), flags_lo(h)] + be16(h.qdcount) + be16(h.ancount) + be16(
        h.nscount,
    ) + be16(h.arcount)
}

/// A header takes twelve octets.
pub proof fn lemma_header_len(h: Header)
    ensures
        header_bytes(h).len() == HEADER_LEN,
{
}

/// The header that the twelve octets at `p` stand for.
pub open spec fn header_at(buf: Seq<u8>, p: int) -> Header {
    Header {
        id: u16_at(buf, p),
        qr: buf[p + 2] >= 128,
        opcode: (buf[p + 2] / 8 % 16) as u8,
        aa: buf[p + 2] / 4 % 2 == 1,
        tc: buf[p + 2] / 2 % 2 == 1,
        rd: buf[p + 2] % 2 == 1,
        ra: buf[p + 3] >= 128,
        z: (buf[p + 3] / 16 % 8) as u8,
        rcode: (buf[p + 3] % 16) as u8,
        qdcount: u16_at(buf, p + 4),
        ancount: u16_at(buf, p + 6),
        nscount: u16_at(buf, p + 8),
        arcount: u16_at(buf, p + 10),
    }
}

/// What reading a header gives: the header and the reader behind it, or
/// the fault.
pub open spec fn header_read(r: ReaderState) -> Result<(Header, ReaderState), WireError> {
    if r.has(HEADER_LEN as int) {
        Ok((header_at(r.buf, r.pos), r.skip(HEADER_LEN as int)))
    } else {
        Err(WireError::Truncated)
    }
}

impl Header {
    /// The opcode and the response code fit four bits, the reserved field
    /// three: what a header holds when it is read.
    pub open spec fn in_range(self) -> bool {
        self.opcode < 16 && self.z < 8 && self.rcode < 16
    }

    /// The header of zeros.
    pub open spec fn zero() -> Header {
        Header {
            id: 0,
            qr: false,
            opcode: 0,
            aa: false,
            tc: false,
            rd: false,
            ra: false,
            z: 0,
            rcode: 0,
            qdcount: 0,
            ancount: 0,
            nscount: 0,
            arcount: 0,
        }
    }

    /// A header of zeros: a query with no entries.
    pub fn new() -> (h: Header)
        ensures
            h == Header::zero(),
    {
        Header {
            id: 0,
            qr: false,
            opcode: 0,
            aa: false,
            tc: false,
            rd: false,
            ra: false,
            z: 0,
            rcode: 0,
            qdcount: 0,
            ancount: 0,
            nscount: 0,
            arcount: 0,
        }
    }

    /// Reads the twelve octets of a header. On a fault the reader stays as
    /// it was.
    pub fn read(reader: &mut Reader) -> (r: Result<Header, WireError>)
        requires
            old(reader).wf(),
        ensures
            final(reader).wf(),
            match header_read(old(reader)@) {
                Ok((h, state)) => r == Ok::<Header, WireError>(h) && final(reader)@ == state
                    && h.in_range(),
                Err(e) => r == Err::<Header, WireError>(e) && final(reader)@ == old(reader)@,
            },
    {
        if reader.remaining() < HEADER_LEN {
            return Err(WireError::Truncated);
        }
        let id = reader.read_u16()?;
        let hi = reader.read_u8()?;
        let lo = reader.read_u8()?;
        let qdcount = reader.read_u16()?;
        let ancount = reader.read_u16()?;
        let nscount = reader.read_u16()?;
        let arcount = reader.read_u16()?;
        assert(reader@ =~= old(reader)@.skip(HEADER_LEN as int));
        assert((hi & 0x80 != 0) == (hi >= 128) && (hi & 0x78) >> 3 == hi / 8 % 16 && (hi & 0x04
            != 0) == (hi / 4 % 2 == 1) && (hi & 0x02 != 0) == (hi / 2 % 2 == 1) && (hi & 0x01
            != 0) == (hi % 2 == 1)) by (bit_vector);
        assert((lo & 0x80 != 0) == (lo >= 128) && (lo & 0x70) >> 4 == lo / 16 % 8 && lo & 0x0F
            == lo % 16) by (bit_vector);
        Ok(
            Header {
                id,
                qr: (hi & 0x80) != 0,
                opcode: (hi & 0x78) >> 3,
                aa: (hi & 0x04) != 0,
                tc: (hi & 0x02) != 0,
                rd: (hi & 0x01) != 0,
                ra: (lo & 0x80) != 0,
                z: (lo & 0x70) >> 4,
                rcode: lo & 0x0F,
                qdcount,
                ancount,
                nscount,
                arcount,
            },
        )
    }

    /// Writes the twelve octets of the header. This cannot fail.
    pub fn write(&self, writer: &mut Writer) -> (r: Result<(), WireError>)
        requires
            old(writer).wf(),
        ensures
            r is Ok,
            final(writer).wf(),
            final(writer)@ == old(writer)@.push(header_bytes(*self)),
    {
        self.put(writer);
        Ok(())
    }

    /// Writes the twelve octets of the header.
    pub fn put(&self, writer: &mut Writer)
        requires
            old(writer).wf(),
        ensures
            final(writer).wf(),
            final(writer)@ == old(writer)@.push(header_bytes(*self)),
    {
        let qr: u8 = if self.qr { 0x80 } else { 0 };
        let aa: u8 = if self.aa { 0x04 } else { 0 };
        let tc: u8 = if self.tc { 0x02 } else { 0 };
        let rd: u8 = if self.rd { 0x01 } else { 0 };
        let ra: u8 = if self.ra { 0x80 } else { 0 };
        let opcode: u8 = self.opcode;
        let z: u8 = self.z;
        let rcode: u8 = self.rcode;
        let hi: u8 = qr | ((opcode & 0x0F) << 3) | aa | tc | rd;
        let lo: u8 = ra | ((z & 0x07) << 4) | (rcode & 0x0F);
        assert(hi == qr + (opcode % 16) * 8 + aa + tc + rd) by (bit_vector)
            requires
                hi == qr | ((opcode & 0x0F) << 3) | aa | tc | rd,
                qr == 0x80 || qr == 0,
                aa == 0x04 || aa == 0,
                tc == 0x02 || tc == 0,
                rd == 0x01 || rd == 0,
        ;
        assert(lo == ra + (z % 8) * 16 + rcode % 16) by (bit_vector)
            requires
                lo == ra | ((z & 0x07) << 4) | (rcode & 0x0F),
                ra == 0x80 || ra == 0,
        ;
        writer.put_u16(self.id);
        writer.put_u8(hi);
        writer.put_u8(lo);
        writer.put_u16(self.qdcount);
        writer.put_u16(self.ancount);
        writer.put_u16(self.nscount);
        writer.put_u16(self.arcount);
        assert(writer@ =~= old(writer)@.push(header_bytes(*self)));
    }
}

} // verus!
