//! The entries of the question section.

use vstd::prelude::*;
use vstd::utf8::{decode_utf8, encode_utf8};
use crate::compression::{
    decompress_name, name_read, name_wire, Reader, ReaderState, Wire, Writer,
};
use crate::name::{check_name, name_fault};
use crate::wire::{be16, u16_at, WireError};

verus! {

/// A question: the name asked about, and the type and class asked for.
#[derive(Debug, PartialEq, Eq)]
pub struct Question {
    pub qname: String,
    pub qtype: u16,
    pub qclass: u16,
}

/// A question as mathematics.
pub struct QuestionView {
    pub qname: Seq<char>,
    pub qtype: u16,
    pub qclass: u16,
}

impl View for Question {
    type V = QuestionView;

    open spec fn view(&self) -> QuestionView {
        QuestionView { qname: self.qname@, qtype: self.qtype, qclass: self.qclass }
    }
}

/// Why a question cannot be written, if it cannot: the fault of its name.
pub open spec fn question_fault(q: QuestionView) -> Option<WireError> {
    name_fault(encode_utf8(q.qname))
}

/// A question written at offset `at`: its name, its type, its class.
pub open spec fn question_wire(names: Map<Seq<u8>, int>, at: int, q: QuestionView) -> Wire {
    let name = name_wire(names, at, encode_utf8(q.qname));
    Wire { bytes: name.bytes + be16(q.qtype) + be16(q.qclass), names: name.names }
}

/// What reading a question gives: the question and the reader behind it, or
/// the fault.
pub open spec fn question_read(r: ReaderState) -> Result<(QuestionView, ReaderState), WireError> {
    match name_read(r) {
        Err(e) => Err(e),
        Ok((text, r1)) => if r1.has(4) {
            Ok(
                (
                    QuestionView {
                        qname: decode_utf8(text),
                        qtype: u16_at(r1.buf, r1.pos),
                        qclass: u16_at(r1.buf, r1.pos + 2),
                    },
                    r1.skip(4),
                ),
            )
        } else {
            Err(WireError::Truncated)
        },
    }
}

impl Clone for Question {
    fn clone(&self) -> (r: Question)
        ensures
            r@ == self@,
    {
        Question { qname: self.qname.clone(), qtype: self.qtype, qclass: self.qclass }
    }
}

impl Question {
    /// Reads a question: a name, then two 16-bit fields. A question that is
    /// read is sound: it can be written again.
    pub fn read(reader: &mut Reader) -> (r: Result<Question, WireError>)
        requires
            old(reader).wf(),
        ensures
            final(reader).wf(),
            final(reader)@.buf == old(reader)@.buf,
            final(reader)@.end == old(reader)@.end,
            match question_read(old(reader)@) {
                Ok((q, state)) => r is Ok && r->Ok_0@ == q && final(reader)@ == state,
                Err(e) => r is Err && r->Err_0 == e,
            },
            r is Ok ==> crate::roundtrip::question_sound(r->Ok_0@) && question_fault(r->Ok_0@)
                is None,
    {
        broadcast use vstd::utf8::encode_utf8_decode_utf8;

        proof {
            crate::roundtrip::lemma_question_read_sound(reader@);
        }

        let qname = decompress_name(reader)?;
        let qtype = reader.read_u16()?;
        let qclass = reader.read_u16()?;
        assert(reader@ =~= name_read(old(reader)@)->Ok_0.1.skip(4));
        Ok(Question { qname, qtype, qclass })
    }

    /// Why the question cannot be written, if it cannot.
    pub fn fault(&self) -> (r: Option<WireError>)
        ensures
            r == question_fault(self@),
    {
        check_name(self.qname.as_str().as_bytes())
    }

    /// Writes the question, which has no fault.
    pub fn put(&self, writer: &mut Writer)
        requires
            old(writer).wf(),
            question_fault(self@) is None,
        ensures
            final(writer).wf(),
            final(writer)@ == old(writer)@.put(
                question_wire(old(writer)@.names, old(writer)@.at(), self@),
            ),
    {
        writer.put_name(self.qname.as_str().as_bytes());
        writer.put_u16(self.qtype);
        writer.put_u16(self.qclass);
        assert(writer@ =~= old(writer)@.put(
            question_wire(old(writer)@.names, old(writer)@.at(), self@),
        ));
    }

    /// Writes the question, unless its name has a fault: then nothing is
    /// written.
    pub fn write(&self, writer: &mut Writer) -> (r: Result<(), WireError>)
        requires
            old(writer).wf(),
        ensures
            final(writer).wf(),
            match question_fault(self@) {
                Some(e) => r == Err::<(), WireError>(e) && final(writer)@ == old(writer)@,
                None => r is Ok && final(writer)@ == old(writer)@.put(
                    question_wire(old(writer)@.names, old(writer)@.at(), self@),
                ),
            },
    {
        match self.fault() {
            Some(e) => Err(e),
            None => {
                self.put(writer);
                Ok(())
            },
        }
    }
}

} // verus!
