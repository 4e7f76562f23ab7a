//! The extension record of a message: what a peer states of itself in the
//! additional section.

use vstd::prelude::*;
use crate::message::{message_bytes, message_fault, records_view, Message, MessageView};
use crate::record::{RData, RDataView, Record, RecordView};
use crate::transport::encode_message;
use crate::wire::{be16, copy_range, push_range, push_u16, u16_at, WireError};

verus! {

/// The type code of the extension record.
pub const TYPE_OPT: u16 = 41;

/// The octets of the fixed fields in the payload of an extension record.
pub const OPT_FIXED: usize = 6;

/// The datagram size that a new extension record offers.
pub const DEFAULT_UDP_SIZE: u16 = 4096;

/// What an extension record states.
#[derive(Debug, PartialEq, Eq)]
pub struct EDNS0 {
    pub version: u8,
    pub flags: u16,
    pub udp_size: u16,
    pub ext_rcode: u8,
    pub edns0_data: Vec<u8>,
}

/// An extension record as mathematics.
pub struct EDNS0View {
    pub version: u8,
    pub flags: u16,
    pub udp_size: u16,
    pub ext_rcode: u8,
    pub edns0_data: Seq<u8>,
}

impl View for EDNS0 {
    type V = EDNS0View;

    open spec fn view(&self) -> EDNS0View {
        EDNS0View {
            version: self.version,
            flags: self.flags,
            udp_size: self.udp_size,
            ext_rcode: self.ext_rcode,
            edns0_data: self.edns0_data@,
        }
    }
}

impl Clone for EDNS0 {
    fn clone(&self) -> (r: EDNS0)
        ensures
            r@ == self@,
    {
        EDNS0 {
            version: self.version,
            flags: self.flags,
            udp_size: self.udp_size,
            ext_rcode: self.ext_rcode,
            edns0_data: vstd::slice::slice_to_vec(self.edns0_data.as_slice()),
        }
    }
}

/// Why an extension record was not read or not added.
#[derive(Debug, Clone, Copy, PartialEq, Eq, Structural)]
pub enum EDNS0Error {
    /// A fault of the wire format: a payload that ends before its fixed
    /// fields do, or a message that cannot be written.
    Wire(WireError),
    /// The message cannot take the record: its counts are not the lengths
    /// of its sections, or its additional section is full.
    InvalidRecord,
}

/// The record is an extension record with an opaque payload.
pub open spec fn is_opt(rec: RecordView) -> bool {
    rec.rtype == TYPE_OPT && rec.rdata is Raw
}

/// The first extension record among the first `n` records, if there is
/// one.
pub open spec fn first_opt(rs: Seq<RecordView>, n: int) -> Option<RecordView>
    decreases n,
{
    if n <= 0 {
        None
    } else {
        match first_opt(rs, n - 1) {
            Some(rec) => Some(rec),
            None => if is_opt(rs[n - 1]) {
                Some(rs[n - 1])
            } else {
                None
            },
        }
    }
}

/// What the payload of an extension record states: version, flags, size and
/// extended code in six octets, and the options behind them.
pub open spec fn opt_parse(data: Seq<u8>) -> Result<EDNS0View, EDNS0Error> {
    if data.len() < OPT_FIXED {
        Err(EDNS0Error::Wire(WireError::Truncated))
    } else {
        Ok(
            EDNS0View {
                version: data[0],
                flags: u16_at(data, 1),
                udp_size: u16_at(data, 3),
                ext_rcode: data[5],
                edns0_data: data.skip(OPT_FIXED as int),
            },
        )
    }
}

/// What the first extension record of a message states, if the message has
/// one.
pub open spec fn edns0_parse(m: MessageView) -> Result<Option<EDNS0View>, EDNS0Error> {
    match first_opt(m.additionals, m.additionals.len() as int) {
        None => Ok(None),
        Some(rec) => match opt_parse(rec.rdata->Raw_0) {
            Ok(e) => Ok(Some(e)),
            Err(e) => Err(e),
        },
    }
}

/// The payload that states `e`, in front of `tail`.
pub open spec fn opt_payload(e: EDNS0View, tail: Seq<u8>) -> Seq<u8> {
    seq![e.version] + be16(e.flags) + be16(e.udp_size) + seq![e.ext_rcode] + e.edns0_data + tail
}

/// The extension record that states `e`, with `tail` at the end of its
/// payload: owned by the root, its class the datagram size, its time to
/// live the flags above the extended code.
pub open spec fn opt_record(e: EDNS0View, tail: Seq<u8>) -> RecordView {
    RecordView {
        name: seq!['.'],
        rtype: TYPE_OPT,
        rclass: e.udp_size,
        ttl: (e.flags as int * 65536 + e.ext_rcode as int) as u32,
        rdata: RDataView::Raw(opt_payload(e, tail)),
    }
}

/// The message can take one more additional record: its counts are the
/// lengths of its sections, its additional section is not full, and it can
/// be written.
pub open spec fn takes_opt(m: MessageView) -> bool {
    m.counts_match() && m.header.arcount < 65535 && message_fault(m) is None
}

/// The message with the extension record that states `e` at the end of its
/// additional section, and counted in its header. The payload of the record
/// ends with the octets of the message as it was.
pub open spec fn with_opt(m: MessageView, e: EDNS0View) -> MessageView {
    MessageView {
        header: crate::header::Header { arcount: (m.header.arcount + 1) as u16, ..m.header },
        questions: m.questions,
        answers: m.answers,
        authorities: m.authorities,
        additionals: m.additionals.push(opt_record(e, message_bytes(m))),
    }
}

impl EDNS0 {
    /// What a new extension record states.
    pub open spec fn initial() -> EDNS0View {
        EDNS0View {
            version: 0,
            flags: 0,
            udp_size: DEFAULT_UDP_SIZE,
            ext_rcode: 0,
            edns0_data: Seq::empty(),
        }
    }

    /// An extension record of version 0 that offers datagrams of 4096
    /// octets and carries no options.
    pub fn new() -> (e: EDNS0)
        ensures
            e@ == EDNS0::initial(),
    {
        EDNS0 {
            version: 0,
            flags: 0,
            udp_size: DEFAULT_UDP_SIZE,
            ext_rcode: 0,
            edns0_data: Vec::new(),
        }
    }

    /// What the payload of an extension record states.
    pub fn from_payload(data: &[u8]) -> (r: Result<EDNS0, EDNS0Error>)
        ensures
            match opt_parse(data@) {
                Ok(e) => r is Ok && r->Ok_0@ == e,
                Err(e) => r is Err && r->Err_0 == e,
            },
    {
        if data.len() < OPT_FIXED {
            return Err(EDNS0Error::Wire(WireError::Truncated));
        }
        Ok(
            EDNS0 {
                version: data[0],
                flags: data[1] as u16 * 256 + data[2] as u16,
                udp_size: data[3] as u16 * 256 + data[4] as u16,
                ext_rcode: data[5],
                edns0_data: copy_range(data, OPT_FIXED, data.len()),
            },
        )
    }

    /// What the first extension record in the additional section of a
    /// message states; nothing where the section has none.
    pub fn parse(message: &Message) -> (r: Result<Option<EDNS0>, EDNS0Error>)
        ensures
            match edns0_parse(message@) {
                Ok(Some(e)) => r is Ok && r->Ok_0 is Some && r->Ok_0->0@ == e,
                Ok(None) => r is Ok && r->Ok_0 is None,
                Err(e) => r is Err && r->Err_0 == e,
            },
    {
        let ghost rs = records_view(message.additionals@);
        let mut i: usize = 0;
        while i < message.additionals.len()
            invariant
                i <= message.additionals@.len(),
                rs == records_view(message.additionals@),
                first_opt(rs, i as int) is None,
            decreases message.additionals.len() - i,
        {
            let additional = &message.additionals[i];
            if additional.rtype == TYPE_OPT {
                match &additional.rdata {
                    RData::Raw(data) => {
                        proof {
                            lemma_first_opt_stays(rs, i + 1, rs.len() as int);
                        }
                        return match EDNS0::from_payload(data.as_slice()) {
                            Ok(e) => Ok(Some(e)),
                            Err(e) => Err(e),
                        };
                    },
                    _ => {},
                }
            }
            i = i + 1;
        }
        Ok(None)
    }

    /// Adds the extension record that states `self` to the additional
    /// section of a message and counts it in the header. A message that
    /// cannot take the record stays as it was.
    pub fn add_to_message(&self, message: &mut Message) -> (r: Result<(), EDNS0Error>)
        ensures
            match r {
                Ok(_) => takes_opt(old(message)@) && final(message)@ == with_opt(
                    old(message)@,
                    self@,
                ),
                Err(e) => !takes_opt(old(message)@) && final(message)@ == old(message)@ && e == (
                match message_fault(old(message)@) {
                    Some(w) => if old(message)@.counts_match() && old(message)@.header.arcount
                        < 65535 {
                        EDNS0Error::Wire(w)
                    } else {
                        EDNS0Error::InvalidRecord
                    },
                    None => EDNS0Error::InvalidRecord,
                }),
            },
    {
        if !message.has_matching_counts() || message.header.arcount == 65535 {
            return Err(EDNS0Error::InvalidRecord);
        }
        let written = match encode_message(message) {
            Ok(b) => b,
            Err(e) => {
                return Err(EDNS0Error::Wire(e));
            },
        };
        let mut data: Vec<u8> = Vec::new();
        data.push(self.version);
        push_u16(&mut data, self.flags);
        push_u16(&mut data, self.udp_size);
        data.push(self.ext_rcode);
        push_range(&mut data, self.edns0_data.as_slice(), 0, self.edns0_data.len());
        push_range(&mut data, written.as_slice(), 0, written.len());
        assert(data@ =~= opt_payload(self@, message_bytes(message@))) by {
            assert(self.edns0_data@.subrange(0, self.edns0_data@.len() as int)
                =~= self.edns0_data@);
            assert(written@.subrange(0, written@.len() as int) =~= written@);
        }
        let flags: u32 = self.flags as u32;
        let ext_rcode: u32 = self.ext_rcode as u32;
        let opt = Record {
            name: root_name(),
            rtype: TYPE_OPT,
            rclass: self.udp_size,
            ttl: flags * 65536 + ext_rcode,
            rdata: RData::Raw(data),
        };
        assert(opt@ == opt_record(self@, message_bytes(message@)));
        message.additionals.push(opt);
        message.header.arcount = message.header.arcount + 1;
        assert(message@.additionals =~= old(message)@.additionals.push(
            opt_record(self@, message_bytes(old(message)@)),
        ));
        Ok(())
    }
}

/// The name of the root, as a single dot.
fn root_name() -> (r: String)
    ensures
        r@ == seq!['.'],
{
    proof {
        reveal_strlit(".");
    }
    let r = ".".to_owned();
    assert(r@ =~= seq!['.']);
    r
}

/// An extension record among the first records is the first of every
/// longer run.
pub proof fn lemma_first_opt_stays(rs: Seq<RecordView>, i: int, n: int)
    requires
        0 <= i <= n,
        first_opt(rs, i) is Some,
    ensures
        first_opt(rs, n) == first_opt(rs, i),
    decreases n - i,
{
    if i < n {
        lemma_first_opt_stays(rs, i, n - 1);
    }
}

} // verus!
