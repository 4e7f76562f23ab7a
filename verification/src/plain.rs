//! The pointer-free form of a message, and how the written form compares
//! with it: the two are the same where no name can reuse an earlier one,
//! and the written form is strictly shorter where one can.

use vstd::prelude::*;
use vstd::utf8::encode_utf8;
use crate::compression::name_wire;
use crate::header::{header_bytes, lemma_header_len};
use crate::message::{
    message_fault, message_wire, questions_fault, questions_wire, records_fault, records_wire,
    sections_wire, MessageView,
};
use crate::name::plain_name;
use crate::pointers::{lemma_name_plain_or_shorter, name_pointer};
use crate::question::{question_fault, question_wire, QuestionView};
use crate::record::{rdata_fault, rdata_wire, record_fault, record_wire, RDataView, RecordView};
use crate::wire::{be16, be32};

verus! {

/// A question with its name in full.
pub open spec fn question_plain(q: QuestionView) -> Seq<u8> {
    plain_name(encode_utf8(q.qname)) + be16(q.qtype) + be16(q.qclass)
}

/// A payload with its names in full.
pub open spec fn rdata_plain(d: RDataView) -> Seq<u8> {
    match d {
        RDataView::CNAME(n) => plain_name(encode_utf8(n)),
        RDataView::MX { preference, exchange } => be16(preference) + plain_name(
            encode_utf8(exchange),
        ),
        RDataView::NS(n) => plain_name(encode_utf8(n)),
        RDataView::SOA { mname, rname, serial, refresh, retry, expire, minimum } => plain_name(
            encode_utf8(mname),
        ) + plain_name(encode_utf8(rname)) + be32(serial) + be32(refresh) + be32(retry) + be32(
            expire,
        ) + be32(minimum),
        _ => rdata_wire(Map::empty(), 0, d).bytes,
    }
}

/// A record with its names in full.
pub open spec fn record_plain(rec: RecordView) -> Seq<u8> {
    plain_name(encode_utf8(rec.name)) + be16(rec.rtype) + be16(rec.rclass) + be32(rec.ttl) + be16(
        rdata_plain(rec.rdata).len() as u16,
    ) + rdata_plain(rec.rdata)
}

/// The first `n` questions with their names in full.
pub open spec fn questions_plain(qs: Seq<QuestionView>, n: int) -> Seq<u8>
    decreases n,
{
    if n <= 0 {
        Seq::empty()
    } else {
        questions_plain(qs, n - 1) + question_plain(qs[n - 1])
    }
}

/// The first `n` records with their names in full.
pub open spec fn records_plain(rs: Seq<RecordView>, n: int) -> Seq<u8>
    decreases n,
{
    if n <= 0 {
        Seq::empty()
    } else {
        records_plain(rs, n - 1) + record_plain(rs[n - 1])
    }
}

/// The four sections with all names in full.
pub open spec fn sections_plain(m: MessageView) -> Seq<u8> {
    questions_plain(m.questions, m.questions.len() as int) + records_plain(
        m.answers,
        m.answers.len() as int,
    ) + records_plain(m.authorities, m.authorities.len() as int) + records_plain(
        m.additionals,
        m.additionals.len() as int,
    )
}

/// A message with all names in full: what writing it without pointers
/// gives.
pub open spec fn message_plain(m: MessageView) -> Seq<u8> {
    header_bytes(m.header) + sections_plain(m)
}

/// The table holds a suffix of the name `n`, so that the name ends in a
/// pointer when it is written.
pub open spec fn name_reuses(names: Map<Seq<u8>, int>, n: Seq<char>) -> bool {
    name_pointer(names, encode_utf8(n)) is Some
}

/// A name of the payload, written at `at`, can reuse what the table holds.
pub open spec fn rdata_reuses(names: Map<Seq<u8>, int>, at: int, d: RDataView) -> bool {
    match d {
        RDataView::CNAME(n) => name_reuses(names, n),
        RDataView::MX { preference, exchange } => name_reuses(names, exchange),
        RDataView::NS(n) => name_reuses(names, n),
        RDataView::SOA { mname, rname, serial, refresh, retry, expire, minimum } => name_reuses(
            names,
            mname,
        ) || name_reuses(name_wire(names, at, encode_utf8(mname)).names, rname),
        _ => false,
    }
}

/// A name of the record, written at `at`, can reuse what the table holds
/// when its turn comes.
pub open spec fn record_reuses(names: Map<Seq<u8>, int>, at: int, rec: RecordView) -> bool {
    let owner = name_wire(names, at, encode_utf8(rec.name));
    name_reuses(names, rec.name) || rdata_reuses(
        owner.names,
        at + owner.bytes.len() + 10,
        rec.rdata,
    )
}

/// One of the first `n` questions, written from `at` on, can reuse what the
/// table holds when its turn comes.
pub open spec fn questions_reuse(
    names: Map<Seq<u8>, int>,
    at: int,
    qs: Seq<QuestionView>,
    n: int,
) -> bool
    decreases n,
{
    if n <= 0 {
        false
    } else {
        questions_reuse(names, at, qs, n - 1) || name_reuses(
            questions_wire(names, at, qs, n - 1).names,
            qs[n - 1].qname,
        )
    }
}

/// One of the first `n` records, written from `at` on, can reuse what the
/// table holds when its turn comes.
pub open spec fn records_reuse(
    names: Map<Seq<u8>, int>,
    at: int,
    rs: Seq<RecordView>,
    n: int,
) -> bool
    decreases n,
{
    if n <= 0 {
        false
    } else {
        let before = records_wire(names, at, rs, n - 1);
        records_reuse(names, at, rs, n - 1) || record_reuses(
            before.names,
            at + before.bytes.len(),
            rs[n - 1],
        )
    }
}

/// A name in one of the four sections, written from `at` on, can reuse
/// what the table holds when its turn comes.
pub open spec fn sections_reuse(names: Map<Seq<u8>, int>, at: int, m: MessageView) -> bool {
    let qd = questions_wire(names, at, m.questions, m.questions.len() as int);
    let a1 = at + qd.bytes.len();
    let an = records_wire(qd.names, a1, m.answers, m.answers.len() as int);
    let a2 = a1 + an.bytes.len();
    let ns = records_wire(an.names, a2, m.authorities, m.authorities.len() as int);
    let a3 = a2 + ns.bytes.len();
    ||| questions_reuse(names, at, m.questions, m.questions.len() as int)
    ||| records_reuse(qd.names, a1, m.answers, m.answers.len() as int)
    ||| records_reuse(an.names, a2, m.authorities, m.authorities.len() as int)
    ||| records_reuse(ns.names, a3, m.additionals, m.additionals.len() as int)
}

/// A name of the message, written alone, can reuse a name or suffix that
/// was written before it at an offset below 16384.
pub open spec fn message_reuses(m: MessageView) -> bool {
    sections_reuse(Map::empty(), 12, m)
}

/// The written form `wire` is the plain form `plain` where nothing is
/// reused, and strictly shorter where something is.
pub open spec fn plain_or_shorter(reuses: bool, wire: Seq<u8>, plain: Seq<u8>) -> bool {
    if reuses {
        wire.len() < plain.len()
    } else {
        wire == plain
    }
}

/// A question stands on the wire with its name in full, or is strictly
/// shorter: the latter where the table holds a suffix of its name.
pub proof fn lemma_question_plain_or_shorter(names: Map<Seq<u8>, int>, at: int, q: QuestionView)
    requires
        question_fault(q) is None,
    ensures
        plain_or_shorter(
            name_reuses(names, q.qname),
            question_wire(names, at, q).bytes,
            question_plain(q),
        ),
{
    lemma_name_plain_or_shorter(names, at, encode_utf8(q.qname));
}

/// A payload stands on the wire with its names in full, or is strictly
/// shorter: the latter where the table holds a suffix of one of its names.
pub proof fn lemma_rdata_plain_or_shorter(names: Map<Seq<u8>, int>, at: int, d: RDataView)
    requires
        rdata_fault(d) is None,
    ensures
        plain_or_shorter(rdata_reuses(names, at, d), rdata_wire(names, at, d).bytes, rdata_plain(d)),
{
    match d {
        RDataView::CNAME(n) => {
            lemma_name_plain_or_shorter(names, at, encode_utf8(n));
        },
        RDataView::NS(n) => {
            lemma_name_plain_or_shorter(names, at, encode_utf8(n));
        },
        RDataView::MX { preference, exchange } => {
            lemma_name_plain_or_shorter(names, at + 2, encode_utf8(exchange));
        },
        RDataView::SOA { mname, rname, serial, refresh, retry, expire, minimum } => {
            let m = name_wire(names, at, encode_utf8(mname));
            lemma_name_plain_or_shorter(names, at, encode_utf8(mname));
            lemma_name_plain_or_shorter(m.names, at + m.bytes.len(), encode_utf8(rname));
        },
        _ => {},
    }
}

/// A record stands on the wire with its names in full, or is strictly
/// shorter: the latter where the table holds a suffix of one of its names
/// when its turn comes.
pub proof fn lemma_record_plain_or_shorter(names: Map<Seq<u8>, int>, at: int, rec: RecordView)
    requires
        record_fault(rec) is None,
    ensures
        plain_or_shorter(
            record_reuses(names, at, rec),
            record_wire(names, at, rec).bytes,
            record_plain(rec),
        ),
{
    let owner = name_wire(names, at, encode_utf8(rec.name));
    lemma_name_plain_or_shorter(names, at, encode_utf8(rec.name));
    lemma_rdata_plain_or_shorter(owner.names, at + owner.bytes.len() + 10, rec.rdata);
}

/// No fault among the first `n` questions means no fault in the last of
/// them, nor among those before it.
pub proof fn lemma_questions_fault_none(qs: Seq<QuestionView>, n: int)
    requires
        0 < n,
        questions_fault(qs, n) is None,
    ensures
        questions_fault(qs, n - 1) is None,
        question_fault(qs[n - 1]) is None,
{
}

/// No fault among the first `n` records means no fault in the last of
/// them, nor among those before it.
pub proof fn lemma_records_fault_none(rs: Seq<RecordView>, n: int)
    requires
        0 < n,
        records_fault(rs, n) is None,
    ensures
        records_fault(rs, n - 1) is None,
        record_fault(rs[n - 1]) is None,
{
}

/// Questions stand on the wire with their names in full, or are strictly
/// shorter: the latter where one of them can reuse what the table holds
/// when its turn comes.
pub proof fn lemma_questions_plain_or_shorter(
    names: Map<Seq<u8>, int>,
    at: int,
    qs: Seq<QuestionView>,
    n: int,
)
    requires
        0 <= n,
        questions_fault(qs, n) is None,
    ensures
        plain_or_shorter(
            questions_reuse(names, at, qs, n),
            questions_wire(names, at, qs, n).bytes,
            questions_plain(qs, n),
        ),
        questions_wire(names, at, qs, n).bytes.len() <= questions_plain(qs, n).len(),
    decreases n,
{
    if n > 0 {
        lemma_questions_fault_none(qs, n);
        lemma_questions_plain_or_shorter(names, at, qs, n - 1);
        let before = questions_wire(names, at, qs, n - 1);
        lemma_question_plain_or_shorter(before.names, at + before.bytes.len(), qs[n - 1]);
    }
}

/// Records stand on the wire with their names in full, or are strictly
/// shorter: the latter where one of them can reuse what the table holds
/// when its turn comes.
pub proof fn lemma_records_plain_or_shorter(
    names: Map<Seq<u8>, int>,
    at: int,
    rs: Seq<RecordView>,
    n: int,
)
    requires
        0 <= n,
        records_fault(rs, n) is None,
    ensures
        plain_or_shorter(
            records_reuse(names, at, rs, n),
            records_wire(names, at, rs, n).bytes,
            records_plain(rs, n),
        ),
        records_wire(names, at, rs, n).bytes.len() <= records_plain(rs, n).len(),
    decreases n,
{
    if n > 0 {
        lemma_records_fault_none(rs, n);
        lemma_records_plain_or_shorter(names, at, rs, n - 1);
        let before = records_wire(names, at, rs, n - 1);
        lemma_record_plain_or_shorter(before.names, at + before.bytes.len(), rs[n - 1]);
    }
}

/// The four sections stand on the wire with all names in full, or are
/// strictly shorter: the latter where one of their names can reuse what
/// the table holds when its turn comes.
pub proof fn lemma_sections_plain_or_shorter(names: Map<Seq<u8>, int>, at: int, m: MessageView)
    requires
        message_fault(m) is None,
    ensures
        plain_or_shorter(
            sections_reuse(names, at, m),
            sections_wire(names, at, m).bytes,
            sections_plain(m),
        ),
{
    let qn = m.questions.len() as int;
    let an_n = m.answers.len() as int;
    let ns_n = m.authorities.len() as int;
    let ar_n = m.additionals.len() as int;
    let qd = questions_wire(names, at, m.questions, qn);
    let a1 = at + qd.bytes.len();
    let an = records_wire(qd.names, a1, m.answers, an_n);
    let a2 = a1 + an.bytes.len();
    let ns = records_wire(an.names, a2, m.authorities, ns_n);
    let a3 = a2 + ns.bytes.len();
    let ar = records_wire(ns.names, a3, m.additionals, ar_n);
    assert(questions_fault(m.questions, qn) is None);
    assert(records_fault(m.answers, an_n) is None);
    assert(records_fault(m.authorities, ns_n) is None);
    assert(records_fault(m.additionals, ar_n) is None);
    lemma_questions_plain_or_shorter(names, at, m.questions, qn);
    lemma_records_plain_or_shorter(qd.names, a1, m.answers, an_n);
    lemma_records_plain_or_shorter(an.names, a2, m.authorities, ns_n);
    lemma_records_plain_or_shorter(ns.names, a3, m.additionals, ar_n);
    let pq = questions_plain(m.questions, qn);
    let pa = records_plain(m.answers, an_n);
    let pn = records_plain(m.authorities, ns_n);
    let pr = records_plain(m.additionals, ar_n);
    assert(sections_wire(names, at, m).bytes.len() == qd.bytes.len() + an.bytes.len()
        + ns.bytes.len() + ar.bytes.len());
    assert(sections_plain(m).len() == pq.len() + pa.len() + pn.len() + pr.len());
}

/// A message without a name that can reuse an earlier one is written as
/// its pointer-free form. A message with such a name is written strictly
/// shorter than its pointer-free form.
pub proof fn lemma_message_plain_or_shorter(m: MessageView)
    requires
        message_fault(m) is None,
    ensures
        plain_or_shorter(message_reuses(m), crate::message::message_bytes(m), message_plain(m)),
{
    let h = header_bytes(m.header);
    lemma_header_len(m.header);
    lemma_sections_plain_or_shorter(Map::empty(), 12, m);
    let body = sections_wire(Map::empty(), 12, m);
    assert(message_wire(Map::empty(), 0, m).bytes == h + body.bytes);
    assert(message_plain(m) == h + sections_plain(m));
}

} // verus!
