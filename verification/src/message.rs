//! The message: a header and four sections.

use vstd::prelude::*;
use crate::compression::{Reader, ReaderState, Wire, Writer};
use crate::header::{header_bytes, header_read, Header};
use crate::question::{question_fault, question_read, question_wire, Question, QuestionView};
use crate::record::{
    lift, or_fault, record_fault, record_read, record_wire, Record, RecordError, RecordView,
};
use crate::wire::WireError;

verus! {

/// A message: its header, and the questions, answers, authorities and
/// additionals that it carries.
#[derive(Debug, PartialEq, Eq)]
pub struct Message {
    pub header: Header,
    pub questions: Vec<Question>,
    pub answers: Vec<Record>,
    pub authorities: Vec<Record>,
    pub additionals: Vec<Record>,
}

/// A message as mathematics.
pub struct MessageView {
    pub header: Header,
    pub questions: Seq<QuestionView>,
    pub answers: Seq<RecordView>,
    pub authorities: Seq<RecordView>,
    pub additionals: Seq<RecordView>,
}

/// The questions of a list, as mathematics.
pub open spec fn questions_view(v: Seq<Question>) -> Seq<QuestionView> {
    v.map_values(|q: Question| q@)
}

/// The records of a list, as mathematics.
pub open spec fn records_view(v: Seq<Record>) -> Seq<RecordView> {
    v.map_values(|rec: Record| rec@)
}

impl View for Message {
    type V = MessageView;

    open spec fn view(&self) -> MessageView {
        MessageView {
            header: self.header,
            questions: questions_view(self.questions@),
            answers: records_view(self.answers@),
            authorities: records_view(self.authorities@),
            additionals: records_view(self.additionals@),
        }
    }
}

/// A copy of a list of questions.
pub fn clone_questions(qs: &[Question]) -> (r: Vec<Question>)
    ensures
        questions_view(r@) == questions_view(qs@),
{
    let mut out: Vec<Question> = Vec::new();
    let mut i: usize = 0;
    while i < qs.len()
        invariant
            i <= qs@.len(),
            out@.len() == i,
            forall|k: int| 0 <= k < i ==> (#[trigger] out@[k])@ == qs@[k]@,
        decreases qs.len() - i,
    {
        out.push(qs[i].clone());
        i = i + 1;
    }
    assert(questions_view(out@) =~= questions_view(qs@));
    out
}

/// A copy of a list of records.
pub fn clone_records(rs: &[Record]) -> (r: Vec<Record>)
    ensures
        records_view(r@) == records_view(rs@),
{
    let mut out: Vec<Record> = Vec::new();
    let mut i: usize = 0;
    while i < rs.len()
        invariant
            i <= rs@.len(),
            out@.len() == i,
            forall|k: int| 0 <= k < i ==> (#[trigger] out@[k])@ == rs@[k]@,
        decreases rs.len() - i,
    {
        out.push(rs[i].clone());
        i = i + 1;
    }
    assert(records_view(out@) =~= records_view(rs@));
    out
}

impl Clone for Message {
    fn clone(&self) -> (r: Message)
        ensures
            r@ == self@,
    {
        Message {
            header: self.header,
            questions: clone_questions(self.questions.as_slice()),
            answers: clone_records(self.answers.as_slice()),
            authorities: clone_records(self.authorities.as_slice()),
            additionals: clone_records(self.additionals.as_slice()),
        }
    }
}

impl MessageView {
    /// Each count of the header is the length of its section.
    pub open spec fn counts_match(self) -> bool {
        &&& self.header.qdcount == self.questions.len()
        &&& self.header.ancount == self.answers.len()
        &&& self.header.nscount == self.authorities.len()
        &&& self.header.arcount == self.additionals.len()
    }
}

/// The first fault among the first `n` questions, if there is one.
pub open spec fn questions_fault(qs: Seq<QuestionView>, n: int) -> Option<WireError>
    decreases n,
{
    if n <= 0 {
        None
    } else {
        or_fault(questions_fault(qs, n - 1), question_fault(qs[n - 1]))
    }
}

/// The first fault among the first `n` records, if there is one.
pub open spec fn records_fault(rs: Seq<RecordView>, n: int) -> Option<WireError>
    decreases n,
{
    if n <= 0 {
        None
    } else {
        or_fault(records_fault(rs, n - 1), record_fault(rs[n - 1]))
    }
}

/// Why a message cannot be written, if it cannot: the first fault of an
/// entry, in the order of the sections.
pub open spec fn message_fault(m: MessageView) -> Option<WireError> {
    or_fault(
        questions_fault(m.questions, m.questions.len() as int),
        or_fault(
            records_fault(m.answers, m.answers.len() as int),
            or_fault(
                records_fault(m.authorities, m.authorities.len() as int),
                records_fault(m.additionals, m.additionals.len() as int),
            ),
        ),
    )
}

/// The first `n` questions written at offset `at`, one behind the other.
pub open spec fn questions_wire(
    names: Map<Seq<u8>, int>,
    at: int,
    qs: Seq<QuestionView>,
    n: int,
) -> Wire
    decreases n,
{
    if n <= 0 {
        Wire { bytes: Seq::empty(), names }
    } else {
        let before = questions_wire(names, at, qs, n - 1);
        let last = question_wire(before.names, at + before.bytes.len(), qs[n - 1]);
        Wire { bytes: before.bytes + last.bytes, names: last.names }
    }
}

/// The first `n` records written at offset `at`, one behind the other.
pub open spec fn records_wire(
    names: Map<Seq<u8>, int>,
    at: int,
    rs: Seq<RecordView>,
    n: int,
) -> Wire
    decreases n,
{
    if n <= 0 {
        Wire { bytes: Seq::empty(), names }
    } else {
        let before = records_wire(names, at, rs, n - 1);
        let last = record_wire(before.names, at + before.bytes.len(), rs[n - 1]);
        Wire { bytes: before.bytes + last.bytes, names: last.names }
    }
}

/// The four sections of a message written at offset `at`: questions,
/// answers, authorities, additionals.
pub open spec fn sections_wire(names: Map<Seq<u8>, int>, at: int, m: MessageView) -> Wire {
    let qd = questions_wire(names, at, m.questions, m.questions.len() as int);
    let an = records_wire(qd.names, at + qd.bytes.len(), m.answers, m.answers.len() as int);
    let ns = records_wire(
        an.names,
        at + qd.bytes.len() + an.bytes.len(),
        m.authorities,
        m.authorities.len() as int,
    );
    let ar = records_wire(
        ns.names,
        at + qd.bytes.len() + an.bytes.len() + ns.bytes.len(),
        m.additionals,
        m.additionals.len() as int,
    );
    Wire { bytes: qd.bytes + an.bytes + ns.bytes + ar.bytes, names: ar.names }
}

/// A message written at offset `at`: the header, then the four sections in
/// their order.
pub open spec fn message_wire(names: Map<Seq<u8>, int>, at: int, m: MessageView) -> Wire {
    let h = header_bytes(m.header);
    let body = sections_wire(names, at + h.len(), m);
    Wire { bytes: h + body.bytes, names: body.names }
}

/// The octets of a message that stands alone.
pub open spec fn message_bytes(m: MessageView) -> Seq<u8> {
    message_wire(Map::empty(), 0, m).bytes
}

/// What reading `n` questions gives: the questions and the reader behind
/// them, or the first fault.
pub open spec fn questions_read(r: ReaderState, n: int) -> Result<
    (Seq<QuestionView>, ReaderState),
    RecordError,
>
    decreases n,
{
    if n <= 0 {
        Ok((Seq::empty(), r))
    } else {
        match questions_read(r, n - 1) {
            Err(e) => Err(e),
            Ok((qs, r1)) => match question_read(r1) {
                Err(e) => Err(RecordError::Wire(e)),
                Ok((q, r2)) => Ok((qs.push(q), r2)),
            },
        }
    }
}

/// What reading `n` records gives: the records and the reader behind them,
/// or the first fault.
pub open spec fn records_read(r: ReaderState, n: int) -> Result<
    (Seq<RecordView>, ReaderState),
    RecordError,
>
    decreases n,
{
    if n <= 0 {
        Ok((Seq::empty(), r))
    } else {
        match records_read(r, n - 1) {
            Err(e) => Err(e),
            Ok((rs, r1)) => match record_read(r1) {
                Err(e) => Err(e),
                Ok((rec, r2)) => Ok((rs.push(rec), r2)),
            },
        }
    }
}

/// What reading the four sections behind the header `header` gives: the
/// message and the reader behind it, or the first fault. The counts of the
/// header say how many entries each section has.
pub open spec fn sections_read(r: ReaderState, header: Header) -> Result<
    (MessageView, ReaderState),
    RecordError,
> {
    match questions_read(r, header.qdcount as int) {
        Err(e) => Err(e),
        Ok((questions, r1)) => match records_read(r1, header.ancount as int) {
            Err(e) => Err(e),
            Ok((answers, r2)) => match records_read(r2, header.nscount as int) {
                Err(e) => Err(e),
                Ok((authorities, r3)) => match records_read(r3, header.arcount as int) {
                    Err(e) => Err(e),
                    Ok((additionals, r4)) => Ok(
                        (MessageView { header, questions, answers, authorities, additionals }, r4),
                    ),
                },
            },
        },
    }
}

/// What reading a message gives: the message and the reader behind it, or
/// the first fault.
pub open spec fn message_read(r: ReaderState) -> Result<(MessageView, ReaderState), RecordError> {
    match header_read(r) {
        Err(e) => Err(RecordError::Wire(e)),
        Ok((header, r0)) => sections_read(r0, header),
    }
}

/// A fault among the first entries is the fault of every longer run.
pub proof fn lemma_questions_fault_stays(qs: Seq<QuestionView>, i: int, n: int)
    requires
        0 <= i <= n,
        questions_fault(qs, i) is Some,
    ensures
        questions_fault(qs, n) == questions_fault(qs, i),
    decreases n - i,
{
    if i < n {
        lemma_questions_fault_stays(qs, i, n - 1);
    }
}

/// A fault among the first entries is the fault of every longer run.
pub proof fn lemma_records_fault_stays(rs: Seq<RecordView>, i: int, n: int)
    requires
        0 <= i <= n,
        records_fault(rs, i) is Some,
    ensures
        records_fault(rs, n) == records_fault(rs, i),
    decreases n - i,
{
    if i < n {
        lemma_records_fault_stays(rs, i, n - 1);
    }
}

/// A fault in reading the first entries is the fault of reading more.
pub proof fn lemma_questions_read_stays(r: ReaderState, i: int, n: int)
    requires
        0 <= i <= n,
        questions_read(r, i) is Err,
    ensures
        questions_read(r, n) == questions_read(r, i),
    decreases n - i,
{
    if i < n {
        lemma_questions_read_stays(r, i, n - 1);
    }
}

/// A fault in reading the first entries is the fault of reading more.
pub proof fn lemma_records_read_stays(r: ReaderState, i: int, n: int)
    requires
        0 <= i <= n,
        records_read(r, i) is Err,
    ensures
        records_read(r, n) == records_read(r, i),
    decreases n - i,
{
    if i < n {
        lemma_records_read_stays(r, i, n - 1);
    }
}

/// The first fault among the questions of a list, if there is one.
pub fn find_question_fault(qs: &Vec<Question>) -> (r: Option<WireError>)
    ensures
        r == questions_fault(questions_view(qs@), qs@.len() as int),
{
    let mut i: usize = 0;
    while i < qs.len()
        invariant
            i <= qs@.len(),
            questions_fault(questions_view(qs@), i as int) is None,
        decreases qs.len() - i,
    {
        match qs[i].fault() {
            Some(e) => {
                proof {
                    lemma_questions_fault_stays(
                        questions_view(qs@),
                        i + 1,
                        qs@.len() as int,
                    );
                }
                return Some(e);
            },
            None => {},
        }
        i = i + 1;
    }
    None
}

/// The first fault among the records of a list, if there is one.
pub fn find_record_fault(rs: &Vec<Record>) -> (r: Option<WireError>)
    ensures
        r == records_fault(records_view(rs@), rs@.len() as int),
{
    let mut i: usize = 0;
    while i < rs.len()
        invariant
            i <= rs@.len(),
            records_fault(records_view(rs@), i as int) is None,
        decreases rs.len() - i,
    {
        match rs[i].fault() {
            Some(e) => {
                proof {
                    lemma_records_fault_stays(records_view(rs@), i + 1, rs@.len() as int);
                }
                return Some(e);
            },
            None => {},
        }
        i = i + 1;
    }
    None
}

/// Writes the questions of a list, none of which has a fault.
fn put_questions(writer: &mut Writer, qs: &Vec<Question>)
    requires
        old(writer).wf(),
        questions_fault(questions_view(qs@), qs@.len() as int) is None,
    ensures
        final(writer).wf(),
        final(writer)@ == old(writer)@.put(
            questions_wire(
                old(writer)@.names,
                old(writer)@.at(),
                questions_view(qs@),
                qs@.len() as int,
            ),
        ),
{
    let mut i: usize = 0;
    assert(writer@ =~= old(writer)@.put(
        questions_wire(old(writer)@.names, old(writer)@.at(), questions_view(qs@), 0),
    ));
    while i < qs.len()
        invariant
            i <= qs@.len(),
            writer.wf(),
            questions_fault(questions_view(qs@), qs@.len() as int) is None,
            writer@ == old(writer)@.put(
                questions_wire(
                    old(writer)@.names,
                    old(writer)@.at(),
                    questions_view(qs@),
                    i as int,
                ),
            ),
        decreases qs.len() - i,
    {
        proof {
            if questions_fault(questions_view(qs@), i + 1) is Some {
                lemma_questions_fault_stays(questions_view(qs@), i + 1, qs@.len() as int);
            }
        }
        qs[i].put(writer);
        assert(writer@ =~= old(writer)@.put(
            questions_wire(
                old(writer)@.names,
                old(writer)@.at(),
                questions_view(qs@),
                i + 1,
            ),
        ));
        i = i + 1;
    }
}

/// Writes the records of a list, none of which has a fault.
fn put_records(writer: &mut Writer, rs: &Vec<Record>)
    requires
        old(writer).wf(),
        records_fault(records_view(rs@), rs@.len() as int) is None,
    ensures
        final(writer).wf(),
        final(writer)@ == old(writer)@.put(
            records_wire(
                old(writer)@.names,
                old(writer)@.at(),
                records_view(rs@),
                rs@.len() as int,
            ),
        ),
{
    let mut i: usize = 0;
    assert(writer@ =~= old(writer)@.put(
        records_wire(old(writer)@.names, old(writer)@.at(), records_view(rs@), 0),
    ));
    while i < rs.len()
        invariant
            i <= rs@.len(),
            writer.wf(),
            records_fault(records_view(rs@), rs@.len() as int) is None,
            writer@ == old(writer)@.put(
                records_wire(
                    old(writer)@.names,
                    old(writer)@.at(),
                    records_view(rs@),
                    i as int,
                ),
            ),
        decreases rs.len() - i,
    {
        proof {
            if records_fault(records_view(rs@), i + 1) is Some {
                lemma_records_fault_stays(records_view(rs@), i + 1, rs@.len() as int);
            }
        }
        rs[i].put(writer);
        assert(writer@ =~= old(writer)@.put(
            records_wire(old(writer)@.names, old(writer)@.at(), records_view(rs@), i + 1),
        ));
        i = i + 1;
    }
}

/// Reads `n` questions.
fn take_questions(reader: &mut Reader, n: u16) -> (r: Result<Vec<Question>, RecordError>)
    requires
        old(reader).wf(),
    ensures
        final(reader).wf(),
        final(reader)@.buf == old(reader)@.buf,
        final(reader)@.end == old(reader)@.end,
        match questions_read(old(reader)@, n as int) {
            Ok((qs, state)) => r is Ok && questions_view(r->Ok_0@) == qs && final(reader)@
                == state,
            Err(e) => r is Err && r->Err_0 == e,
        },
{
    let mut out: Vec<Question> = Vec::new();
    let mut i: u16 = 0;
    assert(questions_view(out@) =~= Seq::<QuestionView>::empty());
    while i < n
        invariant
            i <= n,
            reader.wf(),
            reader@.buf == old(reader)@.buf,
            reader@.end == old(reader)@.end,
            questions_read(old(reader)@, i as int) == Ok::<
                (Seq<QuestionView>, ReaderState),
                RecordError,
            >((questions_view(out@), reader@)),
        decreases n - i,
    {
        match lift(Question::read(reader)) {
            Err(e) => {
                proof {
                    lemma_questions_read_stays(old(reader)@, i + 1, n as int);
                }
                return Err(e);
            },
            Ok(q) => {
                let ghost before = questions_view(out@);
                out.push(q);
                assert(questions_view(out@) =~= before.push(q@));
            },
        }
        i = i + 1;
    }
    Ok(out)
}

/// Reads `n` records.
fn take_records(reader: &mut Reader, n: u16) -> (r: Result<Vec<Record>, RecordError>)
    requires
        old(reader).wf(),
    ensures
        final(reader).wf(),
        final(reader)@.buf == old(reader)@.buf,
        final(reader)@.end == old(reader)@.end,
        match records_read(old(reader)@, n as int) {
            Ok((rs, state)) => r is Ok && records_view(r->Ok_0@) == rs && final(reader)@ == state,
            Err(e) => r is Err && r->Err_0 == e,
        },
{
    let mut out: Vec<Record> = Vec::new();
    let mut i: u16 = 0;
    assert(records_view(out@) =~= Seq::<RecordView>::empty());
    while i < n
        invariant
            i <= n,
            reader.wf(),
            reader@.buf == old(reader)@.buf,
            reader@.end == old(reader)@.end,
            records_read(old(reader)@, i as int) == Ok::<
                (Seq<RecordView>, ReaderState),
                RecordError,
            >((records_view(out@), reader@)),
        decreases n - i,
    {
        match Record::read(reader) {
            Err(e) => {
                proof {
                    lemma_records_read_stays(old(reader)@, i + 1, n as int);
                }
                return Err(e);
            },
            Ok(rec) => {
                let ghost before = records_view(out@);
                out.push(rec);
                assert(records_view(out@) =~= before.push(rec@));
            },
        }
        i = i + 1;
    }
    Ok(out)
}

impl Message {
    /// Each count of the header is the length of its section.
    pub open spec fn counts_match(&self) -> bool {
        self@.counts_match()
    }

    /// The message without entries under the header of zeros.
    pub open spec fn empty() -> MessageView {
        MessageView {
            header: Header::zero(),
            questions: Seq::empty(),
            answers: Seq::empty(),
            authorities: Seq::empty(),
            additionals: Seq::empty(),
        }
    }

    /// An empty message with a header of zeros.
    pub fn new() -> (m: Message)
        ensures
            m@ == Message::empty(),
            m.questions@.len() == 0,
            m.answers@.len() == 0,
            m.authorities@.len() == 0,
            m.additionals@.len() == 0,
            m.counts_match(),
    {
        let m = Message {
            header: Header::new(),
            questions: Vec::new(),
            answers: Vec::new(),
            authorities: Vec::new(),
            additionals: Vec::new(),
        };
        assert(m@.questions =~= Seq::<QuestionView>::empty());
        assert(m@.answers =~= Seq::<RecordView>::empty());
        assert(m@.authorities =~= Seq::<RecordView>::empty());
        assert(m@.additionals =~= Seq::<RecordView>::empty());
        m
    }

    /// Whether each count of the header is the length of its section.
    pub fn has_matching_counts(&self) -> (r: bool)
        ensures
            r == self.counts_match(),
    {
        self.header.qdcount as usize == self.questions.len() && self.header.ancount as usize
            == self.answers.len() && self.header.nscount as usize == self.authorities.len()
            && self.header.arcount as usize == self.additionals.len()
    }

    /// Why the message cannot be written, if it cannot.
    pub fn fault(&self) -> (r: Option<WireError>)
        ensures
            r == message_fault(self@),
    {
        match find_question_fault(&self.questions) {
            Some(e) => Some(e),
            None => match find_record_fault(&self.answers) {
                Some(e) => Some(e),
                None => match find_record_fault(&self.authorities) {
                    Some(e) => Some(e),
                    None => find_record_fault(&self.additionals),
                },
            },
        }
    }

    /// Reads a message: the header, then as many questions, answers,
    /// authorities and additionals as the header counts, in this order. One
    /// entry that cannot be read fails the whole message. In the message
    /// that is read, each count of the header is the length of its section,
    /// and every name and entry is sound: the message can be written again.
    pub fn read(reader: &mut Reader) -> (r: Result<Message, RecordError>)
        requires
            old(reader).wf(),
        ensures
            final(reader).wf(),
            match message_read(old(reader)@) {
                Ok((m, state)) => r is Ok && r->Ok_0@ == m && final(reader)@ == state,
                Err(e) => r is Err && r->Err_0 == e,
            },
            r is Ok ==> r->Ok_0.counts_match(),
            r is Ok ==> crate::roundtrip::message_sound(r->Ok_0@) && message_fault(r->Ok_0@)
                is None,
    {
        proof {
            crate::roundtrip::lemma_message_read_sound(reader@);
            if message_read(reader@) is Ok {
                crate::roundtrip::lemma_sound_message_has_no_fault(
                    message_read(reader@)->Ok_0.0,
                );
            }
        }
        let header = lift(Header::read(reader))?;
        let questions = take_questions(reader, header.qdcount)?;
        let answers = take_records(reader, header.ancount)?;
        let authorities = take_records(reader, header.nscount)?;
        let additionals = take_records(reader, header.arcount)?;
        proof {
            lemma_questions_read_len(header_read(old(reader)@)->Ok_0.1, header.qdcount as int);
            let r1 = questions_read(header_read(old(reader)@)->Ok_0.1, header.qdcount as int)->Ok_0.1;
            lemma_records_read_len(r1, header.ancount as int);
            let r2 = records_read(r1, header.ancount as int)->Ok_0.1;
            lemma_records_read_len(r2, header.nscount as int);
            let r3 = records_read(r2, header.nscount as int)->Ok_0.1;
            lemma_records_read_len(r3, header.arcount as int);
        }
        Ok(Message { header, questions, answers, authorities, additionals })
    }

    /// Writes the message: the header, then the four sections in their
    /// order. A message with a fault is refused, and nothing is written.
    /// The counts of the header are written as they stand: the caller keeps
    /// them equal to the lengths of the sections.
    #[verifier::rlimit(40)]
    pub fn write(&self, writer: &mut Writer) -> (r: Result<(), WireError>)
        requires
            old(writer).wf(),
            self.counts_match(),
        ensures
            final(writer).wf(),
            match message_fault(self@) {
                Some(e) => r == Err::<(), WireError>(e) && final(writer)@ == old(writer)@,
                None => r is Ok && final(writer)@ == old(writer)@.put(
                    message_wire(old(writer)@.names, old(writer)@.at(), self@),
                ),
            },
    {
        match self.fault() {
            Some(e) => {
                return Err(e);
            },
            None => {},
        }
        self.header.put(writer);
        put_questions(writer, &self.questions);
        put_records(writer, &self.answers);
        put_records(writer, &self.authorities);
        put_records(writer, &self.additionals);
        assert(writer@.bytes =~= old(writer)@.bytes + message_wire(
            old(writer)@.names,
            old(writer)@.at(),
            self@,
        ).bytes);
        Ok(())
    }
}

/// Reading `n` questions gives `n` questions.
pub proof fn lemma_questions_read_len(r: ReaderState, n: int)
    requires
        0 <= n,
    ensures
        questions_read(r, n) is Ok ==> questions_read(r, n)->Ok_0.0.len() == n,
    decreases n,
{
    if n > 0 {
        lemma_questions_read_len(r, n - 1);
    }
}

/// Reading `n` records gives `n` records.
pub proof fn lemma_records_read_len(r: ReaderState, n: int)
    requires
        0 <= n,
    ensures
        records_read(r, n) is Ok ==> records_read(r, n)->Ok_0.0.len() == n,
    decreases n,
{
    if n > 0 {
        lemma_records_read_len(r, n - 1);
    }
}

} // verus!
