//! Responses to requests for the transfer of a zone.

use vstd::prelude::*;
use crate::header::Header;
use crate::message::{
    clone_questions, clone_records, questions_view, records_view, Message, MessageView,
};
use crate::question::{Question, QuestionView};
use crate::record::{Record, RecordView};

verus! {

/// The query type that asks for an incremental transfer.
pub const TYPE_IXFR: u16 = 251;

/// The most entries that a section can count.
pub const MAX_COUNT: usize = 65535;

/// Why a request for a transfer was not answered.
#[derive(Debug, Clone, Copy, PartialEq, Eq, Structural)]
pub enum ZoneTransferError {
    /// The request for a full transfer cannot be answered: it has more
    /// questions than a header can count.
    InvalidAxfrRequest,
    /// The request for an incremental transfer has not exactly one
    /// question, or its question does not ask for one.
    InvalidIxfrRequest,
    /// There are more records to transfer than a header can count.
    TooManyRecords,
}

/// The header of the response to `request`: its id and its wish for
/// recursion, marked as an authoritative response of a server that offers
/// recursion, without error, and counting `questions` questions and
/// `answers` answers.
pub open spec fn transfer_header(request: Header, questions: int, answers: int) -> Header {
    Header {
        id: request.id,
        qr: true,
        opcode: 0,
        aa: true,
        tc: false,
        rd: request.rd,
        ra: true,
        z: 0,
        rcode: 0,
        qdcount: questions as u16,
        ancount: answers as u16,
        nscount: 0,
        arcount: 0,
    }
}

/// The response that carries `answers` for `questions`.
pub open spec fn transfer_response(
    request: Header,
    questions: Seq<QuestionView>,
    answers: Seq<RecordView>,
) -> MessageView {
    MessageView {
        header: transfer_header(request, questions.len() as int, answers.len() as int),
        questions,
        answers,
        authorities: Seq::empty(),
        additionals: Seq::empty(),
    }
}

/// What a request for a full transfer is answered with: the questions of
/// the request and all records of the zone.
pub open spec fn axfr_response(request: MessageView, zone: Seq<RecordView>) -> Result<
    MessageView,
    ZoneTransferError,
> {
    if request.questions.len() > MAX_COUNT {
        Err(ZoneTransferError::InvalidAxfrRequest)
    } else if zone.len() > MAX_COUNT {
        Err(ZoneTransferError::TooManyRecords)
    } else {
        Ok(transfer_response(request.header, request.questions, zone))
    }
}

/// What a request for an incremental transfer is answered with: its one
/// question, which has to ask for such a transfer, and the changes.
pub open spec fn ixfr_response(request: MessageView, changes: Seq<RecordView>) -> Result<
    MessageView,
    ZoneTransferError,
> {
    if request.questions.len() != 1 || request.questions[0].qtype != TYPE_IXFR {
        Err(ZoneTransferError::InvalidIxfrRequest)
    } else if changes.len() > MAX_COUNT {
        Err(ZoneTransferError::TooManyRecords)
    } else {
        Ok(transfer_response(request.header, request.questions, changes))
    }
}

/// The response that carries `answers` for `questions`.
fn respond(request: &Header, questions: Vec<Question>, answers: Vec<Record>) -> (m: Message)
    requires
        questions@.len() <= MAX_COUNT,
        answers@.len() <= MAX_COUNT,
    ensures
        m@ == transfer_response(*request, questions_view(questions@), records_view(answers@)),
        m.counts_match(),
{
    let mut response = Message::new();
    response.header.id = request.id;
    response.header.qr = true;
    response.header.aa = true;
    response.header.rd = request.rd;
    response.header.ra = true;
    response.header.rcode = 0;
    response.header.qdcount = questions.len() as u16;
    response.header.ancount = answers.len() as u16;
    response.questions = questions;
    response.answers = answers;
    assert(response@.authorities =~= Seq::<RecordView>::empty());
    assert(response@.additionals =~= Seq::<RecordView>::empty());
    response
}

/// Answers a request for a full transfer with all records of the zone. The
/// counts of the response are the lengths of its sections.
pub fn handle_axfr_rf(request: &Message, zone_data: &[Record]) -> (r: Result<
    Message,
    ZoneTransferError,
>)
    ensures
        match axfr_response(request@, records_view(zone_data@)) {
            Ok(m) => r is Ok && r->Ok_0@ == m && r->Ok_0.counts_match(),
            Err(e) => r is Err && r->Err_0 == e,
        },
{
    if request.questions.len() > MAX_COUNT {
        return Err(ZoneTransferError::InvalidAxfrRequest);
    }
    if zone_data.len() > MAX_COUNT {
        return Err(ZoneTransferError::TooManyRecords);
    }
    let questions = clone_questions(request.questions.as_slice());
    let answers = clone_records(zone_data);
    Ok(respond(&request.header, questions, answers))
}

/// Answers a request for an incremental transfer with the changes. The
/// counts of the response are the lengths of its sections.
pub fn handle_ixfr(request: &Message, incremental_changes: &[Record]) -> (r: Result<
    Message,
    ZoneTransferError,
>)
    ensures
        match ixfr_response(request@, records_view(incremental_changes@)) {
            Ok(m) => r is Ok && r->Ok_0@ == m && r->Ok_0.counts_match(),
            Err(e) => r is Err && r->Err_0 == e,
        },
{
    if request.questions.len() != 1 {
        return Err(ZoneTransferError::InvalidIxfrRequest);
    }
    if request.questions[0].qtype != TYPE_IXFR {
        return Err(ZoneTransferError::InvalidIxfrRequest);
    }
    if incremental_changes.len() > MAX_COUNT {
        return Err(ZoneTransferError::TooManyRecords);
    }
    let mut questions: Vec<Question> = Vec::new();
    questions.push(request.questions[0].clone());
    assert(questions_view(questions@) =~= questions_view(request.questions@));
    let answers = clone_records(incremental_changes);
    Ok(respond(&request.header, questions, answers))
}

} // verus!
