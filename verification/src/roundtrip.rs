//! What is written is read back: the laws that tie the two directions of the
//! codec together.

use vstd::prelude::*;
use vstd::utf8::{
    decode_utf8, encode_utf8, is_char_boundary_iff_is_leading_byte, pop_first_scalar, valid_utf8,
    valid_utf8_split,
};
use crate::compression::{
    join_labels, labels_read, labels_wire, lemma_labels_read_sound, name_read, name_wire,
    pointer_target, table_below, ReaderState, MAX_WIRE_NAME,
};
use crate::header::{flags_hi, flags_lo, header_at, header_bytes, Header};
use crate::message::{
    message_bytes, message_read, questions_read, questions_wire, records_read, records_wire,
    sections_read, sections_wire, MessageView,
};
use crate::name::{
    is_label_start, is_root, label_end, labels_fault, lemma_label_end, lemma_label_of_sound_name,
    sound_name, DOT,
};
use crate::question::{question_read, question_wire, QuestionView};
use crate::record::{
    rdata_read, rdata_wire, record_read, record_wire, RDataView, RecordView, MAX_RDATA, MAX_TXT,
    TYPE_A, TYPE_AAAA, TYPE_CNAME, TYPE_MX, TYPE_NS, TYPE_SOA, TYPE_TXT,
};
use crate::wire::{be16, be32, lemma_u16_roundtrip, lemma_u32_roundtrip, WireError};

verus! {

/// Every name that the writer can point at stands in the reader's table at
/// the offset that the writer holds for it.
pub open spec fn tables_agree(e: Map<Seq<u8>, int>, d: Map<int, Seq<u8>>) -> bool {
    forall|k: Seq<u8>| #[trigger] e.contains_key(k) ==> d.contains_key(e[k]) && d[e[k]] == k
}

/// The reader stands at the offset `at` that the writer has reached, and
/// the writer's table `names` agrees with the reader's.
pub open spec fn in_step(names: Map<Seq<u8>, int>, at: int, r: ReaderState) -> bool {
    &&& r.wf()
    &&& r.pos == at
    &&& table_below(names, at)
    &&& tables_agree(names, r.names)
}

/// The octets `bytes` stand at `at` in the message `buf`, before `end`.
pub open spec fn holds(buf: Seq<u8>, end: int, at: int, bytes: Seq<u8>) -> bool {
    &&& 0 <= at
    &&& at + bytes.len() <= end <= buf.len()
    &&& buf.subrange(at, at + bytes.len()) == bytes
}

/// Where two runs of octets stand one behind the other, each of them
/// stands.
pub proof fn lemma_holds_split(buf: Seq<u8>, end: int, at: int, a: Seq<u8>, b: Seq<u8>)
    requires
        holds(buf, end, at, a + b),
    ensures
        holds(buf, end, at, a),
        holds(buf, end, at + a.len(), b),
{
    let whole = buf.subrange(at, at + (a + b).len());
    assert(buf.subrange(at, at + a.len()) =~= whole.subrange(0, a.len() as int));
    assert(whole.subrange(0, a.len() as int) =~= a);
    assert(buf.subrange(at + a.len(), at + a.len() + b.len()) =~= whole.subrange(
        a.len() as int,
        (a + b).len() as int,
    ));
    assert(whole.subrange(a.len() as int, (a + b).len() as int) =~= b);
}

/// The reader `r2` is `r` further on in the same message, within the same
/// bounds.
pub open spec fn same_message(r: ReaderState, r2: ReaderState) -> bool {
    r2.buf == r.buf && r2.end == r.end
}

/// In valid text, what starts at a label start is valid text.
pub proof fn lemma_suffix_is_text(t: Seq<u8>, s: int)
    requires
        valid_utf8(t),
        is_label_start(t, s),
    ensures
        valid_utf8(t.skip(s)),
{
    if s == 0 {
        assert(t.skip(0) =~= t);
    } else {
        is_char_boundary_iff_is_leading_byte(t, s - 1);
        valid_utf8_split(t, s - 1);
        let tail = t.subrange(s - 1, t.len() as int);
        assert(tail[0] == DOT);
        assert(pop_first_scalar(tail) =~= t.skip(s));
    }
}

/// In valid text, a label is valid text.
pub proof fn lemma_label_is_text(t: Seq<u8>, s: int)
    requires
        valid_utf8(t),
        is_label_start(t, s),
    ensures
        valid_utf8(t.subrange(s, label_end(t, s))),
{
    lemma_suffix_is_text(t, s);
    lemma_label_end(t, s);
    let u = t.skip(s);
    let e = label_end(t, s);
    if e == t.len() {
        assert(u =~= t.subrange(s, e));
    } else {
        assert(u[e - s] == DOT);
        is_char_boundary_iff_is_leading_byte(u, e - s);
        valid_utf8_split(u, e - s);
        assert(u.subrange(0, e - s) =~= t.subrange(s, e));
    }
}

/// Writing labels keeps the offsets of the table before the place behind
/// them, and every entry that it adds lies at or behind the place where
/// writing began.
pub proof fn lemma_labels_wire_table(names: Map<Seq<u8>, int>, at: int, t: Seq<u8>, s: int)
    requires
        table_below(names, at),
        0 <= at,
        0 <= s <= t.len(),
    ensures
        table_below(
            labels_wire(names, at, t, s).names,
            at + labels_wire(names, at, t, s).bytes.len(),
        ),
        s < t.len() ==> labels_wire(names, at, t, s).bytes.len() >= 1,
        forall|k: Seq<u8>| #[trigger]
            labels_wire(names, at, t, s).names.contains_key(k) ==> labels_wire(
                names,
                at,
                t,
                s,
            ).names[k] >= at || (names.contains_key(k) && names[k] == labels_wire(
                names,
                at,
                t,
                s,
            ).names[k]),
    decreases t.len() - s,
{
    let e = label_end(t, s);
    lemma_label_end(t, s);
    if s < t.len() && !names.contains_key(t.skip(s)) {
        if e < t.len() {
            lemma_labels_wire_table(names, at + 1 + (e - s), t, e + 1);
        }
    }
}

/// The labels that were written from a label start on are read back as the
/// text from there on, and the tables agree again.
pub proof fn lemma_labels_roundtrip(
    names: Map<Seq<u8>, int>,
    at: int,
    t: Seq<u8>,
    s: int,
    buf: Seq<u8>,
    end: int,
    start: int,
    d: Map<int, Seq<u8>>,
)
    requires
        labels_fault(t) is None,
        !is_root(t),
        valid_utf8(t),
        is_label_start(t, s),
        0 <= start,
        at == start + s,
        table_below(names, start),
        tables_agree(names, d),
        crate::compression::sound_table(d),
        at + labels_wire(names, at, t, s).bytes.len() <= end <= buf.len(),
        buf.subrange(at, at + labels_wire(names, at, t, s).bytes.len()) == labels_wire(
            names,
            at,
            t,
            s,
        ).bytes,
    ensures
        match labels_read(buf, at, end, start, MAX_WIRE_NAME - s, d) {
            Ok((text, next, d2)) => {
                &&& text == t.skip(s)
                &&& next == at + labels_wire(names, at, t, s).bytes.len()
                &&& tables_agree(labels_wire(names, at, t, s).names, d2)
            },
            Err(_) => false,
        },
    decreases t.len() - s,
{
    let wire = labels_wire(names, at, t, s);
    let suffix = t.skip(s);
    let e = label_end(t, s);
    let n = wire.bytes.len() as int;
    lemma_label_of_sound_name(t, s);
    let part = buf.subrange(at, at + n);
    assert(forall|i: int| 0 <= i < n ==> #[trigger] part[i] == buf[at + i]);
    if names.contains_key(suffix) {
        let k = names[suffix];
        assert(buf[at] == wire.bytes[0]);
        assert(buf[at + 1] == wire.bytes[1]);
        assert(pointer_target(buf, at) == k);
    } else {
        let l = e - s;
        let label = t.subrange(s, e);
        lemma_label_is_text(t, s);
        assert(buf[at] == wire.bytes[0]);
        assert forall|i: int| 0 <= i < l implies buf.subrange(at + 1, at + 1 + l)[i]
            == label[i] by {
            assert(buf[at + 1 + i] == wire.bytes[1 + i]);
        }
        assert(buf.subrange(at + 1, at + 1 + l) =~= label);
        assert(crate::name::no_dot(label, 0, l)) by {
            lemma_label_end(t, s);
            assert forall|k: int| 0 <= k < l implies label[k] != DOT by {
                assert(t[s + k] != DOT);
            }
        }
        if e >= t.len() {
            assert(buf[at + 1 + l] == wire.bytes[1 + l]);
            assert(label =~= suffix);
            let inner = labels_read(buf, at + 1 + l, end, start, MAX_WIRE_NAME - s - 1 - l, d);
            assert(inner == Ok::<(Seq<u8>, int, Map<int, Seq<u8>>), WireError>(
                (Seq::empty(), at + l + 2, d),
            ));
        } else {
            let rest = labels_wire(names, at + 1 + l, t, e + 1);
            lemma_labels_wire_table(names, at + 1 + l, t, e + 1);
            assert(buf.subrange(at + 1 + l, at + 1 + l + rest.bytes.len()) =~= rest.bytes) by {
                assert forall|i: int| 0 <= i < rest.bytes.len() implies buf[at + 1 + l + i]
                    == rest.bytes[i] by {
                    assert(buf[at + 1 + l + i] == wire.bytes[1 + l + i]);
                }
            }
            lemma_labels_roundtrip(names, at + 1 + l, t, e + 1, buf, end, start, d);
            assert(join_labels(label, t.skip(e + 1)) =~= suffix);
        }
    }
}

/// Writing a name keeps the offsets of the table before the place behind it.
pub proof fn lemma_name_wire_table(names: Map<Seq<u8>, int>, at: int, t: Seq<u8>)
    requires
        table_below(names, at),
        0 <= at,
    ensures
        table_below(name_wire(names, at, t).names, at + name_wire(names, at, t).bytes.len()),
        name_wire(names, at, t).bytes.len() >= 1,
{
    if !is_root(crate::name::canonical(t)) {
        lemma_labels_wire_table(names, at, crate::name::canonical(t), 0);
    }
}

/// A name that was written is read back, and writer and reader are in step
/// again behind it.
pub proof fn lemma_name_roundtrip(names: Map<Seq<u8>, int>, at: int, t: Seq<u8>, r: ReaderState)
    requires
        sound_name(t),
        valid_utf8(t),
        in_step(names, at, r),
        holds(r.buf, r.end, at, name_wire(names, at, t).bytes),
    ensures
        match name_read(r) {
            Ok((text, r2)) => {
                &&& text == t
                &&& same_message(r, r2)
                &&& in_step(name_wire(names, at, t).names, at + name_wire(names, at, t).bytes.len(), r2)
            },
            Err(_) => false,
        },
{
    let wire = name_wire(names, at, t);
    lemma_name_wire_table(names, at, t);
    if is_root(t) {
        assert(r.buf[at] == r.buf.subrange(at, at + 1)[0]);
        assert(t =~= Seq::<u8>::empty());
    } else {
        lemma_labels_roundtrip(names, at, t, 0, r.buf, r.end, at, r.names);
        assert(t.skip(0) =~= t);
        lemma_labels_read_sound(r.buf, r.pos, r.end, r.pos, MAX_WIRE_NAME as int, r.names);
    }
}

/// A header whose codes are in range is read back from its twelve octets.
pub proof fn lemma_header_roundtrip(h: Header, buf: Seq<u8>, p: int)
    requires
        h.in_range(),
        0 <= p,
        p + 12 <= buf.len(),
        buf.subrange(p, p + 12) == header_bytes(h),
    ensures
        header_at(buf, p) == h,
{
    let b = header_bytes(h);
    assert forall|i: int| 0 <= i < 12 implies buf[p + i] == b[i] by {
        assert(buf.subrange(p, p + 12)[i] == buf[p + i]);
    }
    assert(buf[p] == b[0]);
    assert(buf[p + 1] == b[1]);
    assert(buf[p + 2] == flags_hi(h)) by {
        assert(buf[p + 2] == b[2]);
    }
    assert(buf[p + 3] == flags_lo(h)) by {
        assert(buf[p + 3] == b[3]);
    }
    assert(buf[p + 4] == b[4]);
    assert(buf[p + 5] == b[5]);
    assert(buf[p + 6] == b[6]);
    assert(buf[p + 7] == b[7]);
    assert(buf[p + 8] == b[8]);
    assert(buf[p + 9] == b[9]);
    assert(buf[p + 10] == b[10]);
    assert(buf[p + 11] == b[11]);
}

/// A question that can be written and is read back as it is: its name is
/// sound.
pub open spec fn question_sound(q: QuestionView) -> bool {
    sound_name(encode_utf8(q.qname))
}

/// A payload that can be written and is read back as it is, under the type
/// code `rtype`: the variant is that of the type, an address has its four
/// or sixteen octets, names are sound, a text has at most 255 octets, and
/// an opaque payload at most 65535.
pub open spec fn rdata_sound(rtype: u16, d: RDataView) -> bool {
    match d {
        RDataView::A(a) => rtype == TYPE_A && a.len() == 4,
        RDataView::AAAA(a) => rtype == TYPE_AAAA && a.len() == 16,
        RDataView::CNAME(n) => rtype == TYPE_CNAME && sound_name(encode_utf8(n)),
        RDataView::MX { preference, exchange } => rtype == TYPE_MX && sound_name(
            encode_utf8(exchange),
        ),
        RDataView::NS(n) => rtype == TYPE_NS && sound_name(encode_utf8(n)),
        RDataView::SOA { mname, rname, serial, refresh, retry, expire, minimum } => rtype
            == TYPE_SOA && sound_name(encode_utf8(mname)) && sound_name(encode_utf8(rname)),
        RDataView::TXT(s) => rtype == TYPE_TXT && encode_utf8(s).len() <= MAX_TXT,
        RDataView::Raw(b) => b.len() <= MAX_RDATA && rtype != TYPE_A && rtype != TYPE_AAAA
            && rtype != TYPE_CNAME && rtype != TYPE_MX && rtype != TYPE_NS && rtype != TYPE_SOA
            && rtype != TYPE_TXT,
    }
}

/// A record that can be written and is read back as it is.
pub open spec fn record_sound(rec: RecordView) -> bool {
    sound_name(encode_utf8(rec.name)) && rdata_sound(rec.rtype, rec.rdata)
}

/// A name given as characters is written and read back as these characters.
pub proof fn lemma_name_chars_roundtrip(
    names: Map<Seq<u8>, int>,
    at: int,
    n: Seq<char>,
    r: ReaderState,
)
    requires
        sound_name(encode_utf8(n)),
        in_step(names, at, r),
        holds(r.buf, r.end, at, name_wire(names, at, encode_utf8(n)).bytes),
    ensures
        match name_read(r) {
            Ok((text, r2)) => {
                &&& decode_utf8(text) == n
                &&& same_message(r, r2)
                &&& in_step(
                    name_wire(names, at, encode_utf8(n)).names,
                    at + name_wire(names, at, encode_utf8(n)).bytes.len(),
                    r2,
                )
            },
            Err(_) => false,
        },
        name_wire(names, at, encode_utf8(n)).bytes.len() <= MAX_WIRE_NAME,
{
    broadcast use vstd::utf8::encode_utf8_decode_utf8, vstd::utf8::encode_utf8_valid_utf8;

    lemma_name_roundtrip(names, at, encode_utf8(n), r);
    crate::compression::lemma_name_wire_len(names, at, encode_utf8(n));
}

/// A question that was written is read back, and writer and reader are in
/// step again behind it.
pub proof fn lemma_question_roundtrip(
    names: Map<Seq<u8>, int>,
    at: int,
    q: QuestionView,
    r: ReaderState,
)
    requires
        question_sound(q),
        in_step(names, at, r),
        holds(r.buf, r.end, at, question_wire(names, at, q).bytes),
    ensures
        match question_read(r) {
            Ok((q2, r2)) => {
                &&& q2 == q
                &&& same_message(r, r2)
                &&& in_step(
                    question_wire(names, at, q).names,
                    at + question_wire(names, at, q).bytes.len(),
                    r2,
                )
            },
            Err(_) => false,
        },
{
    let name = name_wire(names, at, encode_utf8(q.qname));
    let n = name.bytes.len() as int;
    lemma_holds_split(r.buf, r.end, at, name.bytes + be16(q.qtype), be16(q.qclass));
    lemma_holds_split(r.buf, r.end, at, name.bytes, be16(q.qtype));
    lemma_name_chars_roundtrip(names, at, q.qname, r);
    lemma_u16_roundtrip(r.buf, at + n, q.qtype);
    lemma_u16_roundtrip(r.buf, at + n + 2, q.qclass);
}

/// What a payload leaves of writer and reader: the payload was read back,
/// the tables agree again, and the reader's table holds valid texts.
pub open spec fn rdata_read_back(
    names: Map<Seq<u8>, int>,
    at: int,
    rtype: u16,
    d: RDataView,
    r: ReaderState,
) -> bool {
    &&& match rdata_read(r, rtype) {
        Ok((d2, names2)) => {
            &&& d2 == d
            &&& tables_agree(rdata_wire(names, at, d).names, names2)
            &&& crate::compression::sound_table(names2)
        },
        Err(_) => false,
    }
    &&& table_below(rdata_wire(names, at, d).names, at + rdata_wire(names, at, d).bytes.len())
}

/// A payload that is one name is read back.
proof fn lemma_name_rdata_roundtrip(
    names: Map<Seq<u8>, int>,
    at: int,
    rtype: u16,
    d: RDataView,
    r: ReaderState,
)
    requires
        d is CNAME || d is NS,
        rdata_sound(rtype, d),
        in_step(names, at, r),
        holds(r.buf, r.end, at, rdata_wire(names, at, d).bytes),
    ensures
        rdata_read_back(names, at, rtype, d, r),
{
    match d {
        RDataView::CNAME(n) => {
            lemma_name_chars_roundtrip(names, at, n, r);
        },
        RDataView::NS(n) => {
            lemma_name_chars_roundtrip(names, at, n, r);
        },
        _ => {},
    }
}

/// A mail exchange is read back.
proof fn lemma_mx_roundtrip(
    names: Map<Seq<u8>, int>,
    at: int,
    rtype: u16,
    d: RDataView,
    r: ReaderState,
)
    requires
        d is MX,
        rdata_sound(rtype, d),
        in_step(names, at, r),
        holds(r.buf, r.end, at, rdata_wire(names, at, d).bytes),
    ensures
        rdata_read_back(names, at, rtype, d, r),
{
    match d {
        RDataView::MX { preference, exchange } => {
            let name = name_wire(names, at + 2, encode_utf8(exchange));
            lemma_holds_split(r.buf, r.end, at, be16(preference), name.bytes);
            lemma_u16_roundtrip(r.buf, at, preference);
            lemma_name_chars_roundtrip(names, at + 2, exchange, r.skip(2));
        },
        _ => {},
    }
}

/// A start of authority is read back.
proof fn lemma_soa_roundtrip(
    names: Map<Seq<u8>, int>,
    at: int,
    rtype: u16,
    d: RDataView,
    r: ReaderState,
)
    requires
        d is SOA,
        rdata_sound(rtype, d),
        in_step(names, at, r),
        holds(r.buf, r.end, at, rdata_wire(names, at, d).bytes),
    ensures
        rdata_read_back(names, at, rtype, d, r),
{
    match d {
        RDataView::SOA { mname, rname, serial, refresh, retry, expire, minimum } => {
            let m = name_wire(names, at, encode_utf8(mname));
            let ml = m.bytes.len() as int;
            let rn = name_wire(m.names, at + ml, encode_utf8(rname));
            let rl = rn.bytes.len() as int;
            let b1 = m.bytes + rn.bytes;
            let b2 = b1 + be32(serial);
            let b3 = b2 + be32(refresh);
            let b4 = b3 + be32(retry);
            let b5 = b4 + be32(expire);
            lemma_holds_split(r.buf, r.end, at, b5, be32(minimum));
            lemma_holds_split(r.buf, r.end, at, b4, be32(expire));
            lemma_holds_split(r.buf, r.end, at, b3, be32(retry));
            lemma_holds_split(r.buf, r.end, at, b2, be32(refresh));
            lemma_holds_split(r.buf, r.end, at, b1, be32(serial));
            lemma_holds_split(r.buf, r.end, at, m.bytes, rn.bytes);
            lemma_name_chars_roundtrip(names, at, mname, r);
            let r1 = name_read(r)->Ok_0.1;
            lemma_name_chars_roundtrip(m.names, at + ml, rname, r1);
            let p = at + ml + rl;
            lemma_u32_roundtrip(r.buf, p, serial);
            lemma_u32_roundtrip(r.buf, p + 4, refresh);
            lemma_u32_roundtrip(r.buf, p + 8, retry);
            lemma_u32_roundtrip(r.buf, p + 12, expire);
            lemma_u32_roundtrip(r.buf, p + 16, minimum);
        },
        _ => {},
    }
}

/// A text is read back.
proof fn lemma_txt_roundtrip(
    names: Map<Seq<u8>, int>,
    at: int,
    rtype: u16,
    d: RDataView,
    r: ReaderState,
)
    requires
        d is TXT,
        rdata_sound(rtype, d),
        in_step(names, at, r),
        holds(r.buf, r.end, at, rdata_wire(names, at, d).bytes),
        r.end == at + rdata_wire(names, at, d).bytes.len(),
    ensures
        rdata_read_back(names, at, rtype, d, r),
{
    broadcast use vstd::utf8::encode_utf8_decode_utf8, vstd::utf8::encode_utf8_valid_utf8;

    match d {
        RDataView::TXT(s) => {
            let text = encode_utf8(s);
            let head = seq![text.len() as u8];
            lemma_holds_split(r.buf, r.end, at, head, text);
            assert(r.buf[at] == r.buf.subrange(at, at + 1)[0]);
            assert(r.buf.subrange(at + 1, r.end) == text);
        },
        _ => {},
    }
}

/// A payload that was written is read back within the bounds of its
/// length, and the tables agree again.
pub proof fn lemma_rdata_roundtrip(
    names: Map<Seq<u8>, int>,
    at: int,
    rtype: u16,
    d: RDataView,
    r: ReaderState,
)
    requires
        rdata_sound(rtype, d),
        in_step(names, at, r),
        holds(r.buf, r.end, at, rdata_wire(names, at, d).bytes),
        r.end == at + rdata_wire(names, at, d).bytes.len(),
    ensures
        rdata_read_back(names, at, rtype, d, r),
{
    match d {
        RDataView::A(a) => {},
        RDataView::AAAA(a) => {},
        RDataView::CNAME(n) => {
            lemma_name_rdata_roundtrip(names, at, rtype, d, r);
        },
        RDataView::NS(n) => {
            lemma_name_rdata_roundtrip(names, at, rtype, d, r);
        },
        RDataView::MX { preference, exchange } => {
            lemma_mx_roundtrip(names, at, rtype, d, r);
        },
        RDataView::SOA { mname, rname, serial, refresh, retry, expire, minimum } => {
            lemma_soa_roundtrip(names, at, rtype, d, r);
        },
        RDataView::TXT(s) => {
            lemma_txt_roundtrip(names, at, rtype, d, r);
        },
        RDataView::Raw(b) => {},
    }
}

/// A record that was written is read back, and writer and reader are in
/// step again behind it.
pub proof fn lemma_record_roundtrip(
    names: Map<Seq<u8>, int>,
    at: int,
    rec: RecordView,
    r: ReaderState,
)
    requires
        record_sound(rec),
        in_step(names, at, r),
        holds(r.buf, r.end, at, record_wire(names, at, rec).bytes),
    ensures
        match record_read(r) {
            Ok((rec2, r2)) => {
                &&& rec2 == rec
                &&& same_message(r, r2)
                &&& in_step(
                    record_wire(names, at, rec).names,
                    at + record_wire(names, at, rec).bytes.len(),
                    r2,
                )
            },
            Err(_) => false,
        },
{
    let owner = name_wire(names, at, encode_utf8(rec.name));
    let ol = owner.bytes.len() as int;
    let at_d = at + ol + 10;
    let data = rdata_wire(owner.names, at_d, rec.rdata);
    let dl = data.bytes.len() as int;
    let b1 = owner.bytes + be16(rec.rtype);
    let b2 = b1 + be16(rec.rclass);
    let b3 = b2 + be32(rec.ttl);
    let b4 = b3 + be16(dl as u16);
    assert(record_wire(names, at, rec).bytes =~= b4 + data.bytes);
    lemma_holds_split(r.buf, r.end, at, b4, data.bytes);
    lemma_holds_split(r.buf, r.end, at, b3, be16(dl as u16));
    lemma_holds_split(r.buf, r.end, at, b2, be32(rec.ttl));
    lemma_holds_split(r.buf, r.end, at, b1, be16(rec.rclass));
    lemma_holds_split(r.buf, r.end, at, owner.bytes, be16(rec.rtype));
    lemma_name_chars_roundtrip(names, at, rec.name, r);
    let r1 = name_read(r)->Ok_0.1;
    lemma_u16_roundtrip(r.buf, at + ol, rec.rtype);
    lemma_u16_roundtrip(r.buf, at + ol + 2, rec.rclass);
    lemma_u32_roundtrip(r.buf, at + ol + 4, rec.ttl);
    lemma_u16_roundtrip(r.buf, at + ol + 8, dl as u16);
    let b = r1.skip(10).narrow(dl);
    lemma_rdata_roundtrip_len(owner.names, at_d, rec.rtype, rec.rdata);
    assert(in_step(owner.names, at_d, b));
    assert(holds(b.buf, b.end, at_d, data.bytes));
    lemma_rdata_roundtrip(owner.names, at_d, rec.rtype, rec.rdata, b);
}

/// A sound payload takes at most 65535 octets.
pub proof fn lemma_rdata_roundtrip_len(
    names: Map<Seq<u8>, int>,
    at: int,
    rtype: u16,
    d: RDataView,
)
    requires
        rdata_sound(rtype, d),
    ensures
        rdata_wire(names, at, d).bytes.len() <= MAX_RDATA,
{
    match d {
        RDataView::CNAME(n) => {
            crate::compression::lemma_name_wire_len(names, at, encode_utf8(n));
        },
        RDataView::NS(n) => {
            crate::compression::lemma_name_wire_len(names, at, encode_utf8(n));
        },
        RDataView::MX { preference, exchange } => {
            crate::compression::lemma_name_wire_len(names, at + 2, encode_utf8(exchange));
        },
        RDataView::SOA { mname, rname, serial, refresh, retry, expire, minimum } => {
            let m = name_wire(names, at, encode_utf8(mname));
            crate::compression::lemma_name_wire_len(names, at, encode_utf8(mname));
            crate::compression::lemma_name_wire_len(
                m.names,
                at + m.bytes.len(),
                encode_utf8(rname),
            );
        },
        _ => {},
    }
}

/// The first questions of a list that were written are read back, and
/// writer and reader are in step again behind them.
pub proof fn lemma_questions_roundtrip(
    names: Map<Seq<u8>, int>,
    at: int,
    qs: Seq<QuestionView>,
    n: int,
    r: ReaderState,
)
    requires
        0 <= n <= qs.len(),
        forall|i: int| 0 <= i < n ==> question_sound(#[trigger] qs[i]),
        in_step(names, at, r),
        holds(r.buf, r.end, at, questions_wire(names, at, qs, n).bytes),
    ensures
        match questions_read(r, n) {
            Ok((qs2, r2)) => {
                &&& qs2 == qs.take(n)
                &&& same_message(r, r2)
                &&& in_step(
                    questions_wire(names, at, qs, n).names,
                    at + questions_wire(names, at, qs, n).bytes.len(),
                    r2,
                )
            },
            Err(_) => false,
        },
    decreases n,
{
    if n <= 0 {
        assert(qs.take(0) =~= Seq::<QuestionView>::empty());
    } else {
        let before = questions_wire(names, at, qs, n - 1);
        let bl = before.bytes.len() as int;
        let last = question_wire(before.names, at + bl, qs[n - 1]);
        lemma_holds_split(r.buf, r.end, at, before.bytes, last.bytes);
        lemma_questions_roundtrip(names, at, qs, n - 1, r);
        let r1 = questions_read(r, n - 1)->Ok_0.1;
        lemma_question_roundtrip(before.names, at + bl, qs[n - 1], r1);
        assert(qs.take(n - 1).push(qs[n - 1]) =~= qs.take(n));
    }
}

/// The first records of a list that were written are read back, and writer
/// and reader are in step again behind them.
pub proof fn lemma_records_roundtrip(
    names: Map<Seq<u8>, int>,
    at: int,
    rs: Seq<RecordView>,
    n: int,
    r: ReaderState,
)
    requires
        0 <= n <= rs.len(),
        forall|i: int| 0 <= i < n ==> record_sound(#[trigger] rs[i]),
        in_step(names, at, r),
        holds(r.buf, r.end, at, records_wire(names, at, rs, n).bytes),
    ensures
        match records_read(r, n) {
            Ok((rs2, r2)) => {
                &&& rs2 == rs.take(n)
                &&& same_message(r, r2)
                &&& in_step(
                    records_wire(names, at, rs, n).names,
                    at + records_wire(names, at, rs, n).bytes.len(),
                    r2,
                )
            },
            Err(_) => false,
        },
    decreases n,
{
    if n <= 0 {
        assert(rs.take(0) =~= Seq::<RecordView>::empty());
    } else {
        let before = records_wire(names, at, rs, n - 1);
        let bl = before.bytes.len() as int;
        let last = record_wire(before.names, at + bl, rs[n - 1]);
        lemma_holds_split(r.buf, r.end, at, before.bytes, last.bytes);
        lemma_records_roundtrip(names, at, rs, n - 1, r);
        let r1 = records_read(r, n - 1)->Ok_0.1;
        lemma_record_roundtrip(before.names, at + bl, rs[n - 1], r1);
        assert(rs.take(n - 1).push(rs[n - 1]) =~= rs.take(n));
    }
}

/// All questions of a list that were written are read back, and writer
/// and reader are in step again behind them.
pub proof fn lemma_all_questions_roundtrip(
    names: Map<Seq<u8>, int>,
    at: int,
    qs: Seq<QuestionView>,
    r: ReaderState,
)
    requires
        forall|i: int| 0 <= i < qs.len() ==> question_sound(#[trigger] qs[i]),
        in_step(names, at, r),
        holds(r.buf, r.end, at, questions_wire(names, at, qs, qs.len() as int).bytes),
    ensures
        questions_read(r, qs.len() as int) is Ok,
        questions_read(r, qs.len() as int)->Ok_0.0 == qs,
        same_message(r, questions_read(r, qs.len() as int)->Ok_0.1),
        in_step(
            questions_wire(names, at, qs, qs.len() as int).names,
            at + questions_wire(names, at, qs, qs.len() as int).bytes.len(),
            questions_read(r, qs.len() as int)->Ok_0.1,
        ),
{
    lemma_questions_roundtrip(names, at, qs, qs.len() as int, r);
    assert(qs.take(qs.len() as int) =~= qs);
}

/// All records of a list that were written are read back, and writer and
/// reader are in step again behind them.
pub proof fn lemma_all_records_roundtrip(
    names: Map<Seq<u8>, int>,
    at: int,
    rs: Seq<RecordView>,
    r: ReaderState,
)
    requires
        forall|i: int| 0 <= i < rs.len() ==> record_sound(#[trigger] rs[i]),
        in_step(names, at, r),
        holds(r.buf, r.end, at, records_wire(names, at, rs, rs.len() as int).bytes),
    ensures
        records_read(r, rs.len() as int) is Ok,
        records_read(r, rs.len() as int)->Ok_0.0 == rs,
        same_message(r, records_read(r, rs.len() as int)->Ok_0.1),
        in_step(
            records_wire(names, at, rs, rs.len() as int).names,
            at + records_wire(names, at, rs, rs.len() as int).bytes.len(),
            records_read(r, rs.len() as int)->Ok_0.1,
        ),
{
    lemma_records_roundtrip(names, at, rs, rs.len() as int, r);
    assert(rs.take(rs.len() as int) =~= rs);
}

/// The sections of a message are sound: its counts are the lengths of
/// its sections, and every entry is sound.
pub open spec fn sections_sound(m: MessageView) -> bool {
    &&& m.counts_match()
    &&& forall|i: int| 0 <= i < m.questions.len() ==> question_sound(#[trigger] m.questions[i])
    &&& forall|i: int| 0 <= i < m.answers.len() ==> record_sound(#[trigger] m.answers[i])
    &&& forall|i: int| 0 <= i < m.authorities.len() ==> record_sound(#[trigger] m.authorities[i])
    &&& forall|i: int| 0 <= i < m.additionals.len() ==> record_sound(#[trigger] m.additionals[i])
}

/// The four sections that were written are read back.
#[verifier::rlimit(50)]
pub proof fn lemma_sections_roundtrip(
    names: Map<Seq<u8>, int>,
    at: int,
    m: MessageView,
    r: ReaderState,
)
    requires
        sections_sound(m),
        in_step(names, at, r),
        holds(r.buf, r.end, at, sections_wire(names, at, m).bytes),
    ensures
        sections_read(r, m.header) matches Ok((m2, r2)) && m2 == m && r2.pos == at
            + sections_wire(names, at, m).bytes.len(),
{
    let qn = m.questions.len() as int;
    let an_n = m.answers.len() as int;
    let ns_n = m.authorities.len() as int;
    let ar_n = m.additionals.len() as int;
    let qd = questions_wire(names, at, m.questions, qn);
    let ql = qd.bytes.len() as int;
    let an = records_wire(qd.names, at + ql, m.answers, an_n);
    let al = an.bytes.len() as int;
    let ns = records_wire(an.names, at + ql + al, m.authorities, ns_n);
    let nl = ns.bytes.len() as int;
    let ar = records_wire(ns.names, at + ql + al + nl, m.additionals, ar_n);
    let b1 = qd.bytes + an.bytes;
    let b2 = b1 + ns.bytes;
    lemma_holds_split(r.buf, r.end, at, b2, ar.bytes);
    lemma_holds_split(r.buf, r.end, at, b1, ns.bytes);
    lemma_holds_split(r.buf, r.end, at, qd.bytes, an.bytes);
    lemma_all_questions_roundtrip(names, at, m.questions, r);
    let r1 = questions_read(r, qn)->Ok_0.1;
    lemma_all_records_roundtrip(qd.names, at + ql, m.answers, r1);
    let r2 = records_read(r1, an_n)->Ok_0.1;
    lemma_all_records_roundtrip(an.names, at + ql + al, m.authorities, r2);
    let r3 = records_read(r2, ns_n)->Ok_0.1;
    lemma_all_records_roundtrip(ns.names, at + ql + al + nl, m.additionals, r3);
}

/// A message that can be written and is read back as it is: the codes of
/// its header are in range, its counts are the lengths of its sections, and
/// every entry is sound.
pub open spec fn message_sound(m: MessageView) -> bool {
    m.header.in_range() && sections_sound(m)
}

/// Sound questions have no fault.
pub proof fn lemma_sound_questions_have_no_fault(qs: Seq<QuestionView>, n: int)
    requires
        0 <= n <= qs.len(),
        forall|i: int| 0 <= i < n ==> question_sound(#[trigger] qs[i]),
    ensures
        crate::message::questions_fault(qs, n) is None,
    decreases n,
{
    if n > 0 {
        lemma_sound_questions_have_no_fault(qs, n - 1);
        assert(question_sound(qs[n - 1]));
    }
}

/// Sound records have no fault.
pub proof fn lemma_sound_records_have_no_fault(rs: Seq<RecordView>, n: int)
    requires
        0 <= n <= rs.len(),
        forall|i: int| 0 <= i < n ==> record_sound(#[trigger] rs[i]),
    ensures
        crate::message::records_fault(rs, n) is None,
    decreases n,
{
    if n > 0 {
        lemma_sound_records_have_no_fault(rs, n - 1);
        assert(record_sound(rs[n - 1]));
    }
}

/// A sound message has no fault: it can be written.
pub proof fn lemma_sound_message_has_no_fault(m: MessageView)
    requires
        message_sound(m),
    ensures
        crate::message::message_fault(m) is None,
{
    lemma_sound_questions_have_no_fault(m.questions, m.questions.len() as int);
    lemma_sound_records_have_no_fault(m.answers, m.answers.len() as int);
    lemma_sound_records_have_no_fault(m.authorities, m.authorities.len() as int);
    lemma_sound_records_have_no_fault(m.additionals, m.additionals.len() as int);
}

/// Reading what was written gives the message back: a sound message, with
/// or without names that repeat, can be written, and it is read from its
/// octets field for field as it was, with the reader behind the last octet.
pub proof fn lemma_message_roundtrip(m: MessageView)
    requires
        message_sound(m),
    ensures
        crate::message::message_fault(m) is None,
        message_read(ReaderState::start(message_bytes(m))) matches Ok((m2, r2)) && m2 == m
            && r2.pos == message_bytes(m).len(),
{
    lemma_sound_message_has_no_fault(m);
    let buf = message_bytes(m);
    let end = buf.len() as int;
    let r = ReaderState::start(buf);
    let h = header_bytes(m.header);
    let empty = Map::<Seq<u8>, int>::empty();
    let body = sections_wire(empty, 12, m);
    let r0 = r.skip(12);
    assert(h.len() == 12) by {
        crate::header::lemma_header_len(m.header);
    }
    assert(buf == h + body.bytes);
    assert(holds(buf, end, 0, h) && holds(buf, end, 12, body.bytes)) by {
        assert(buf.subrange(0, end) =~= buf);
        lemma_holds_split(buf, end, 0, h, body.bytes);
    }
    assert(crate::header::header_read(r) == Ok::<(Header, ReaderState), WireError>(
        (m.header, r0),
    )) by {
        lemma_header_roundtrip(m.header, buf, 0);
    }
    assert(in_step(empty, 12, r0));
    lemma_sections_roundtrip(empty, 12, m, r0);
}

/// A name that is read is a sound name, and the reader stays well-formed
/// in the same message.
pub proof fn lemma_name_read_sound(r: ReaderState)
    requires
        r.wf(),
    ensures
        match name_read(r) {
            Ok((text, r2)) => {
                &&& valid_utf8(text)
                &&& sound_name(text)
                &&& r2.wf()
                &&& same_message(r, r2)
                &&& r.pos < r2.pos
            },
            Err(_) => true,
        },
{
    lemma_labels_read_sound(r.buf, r.pos, r.end, r.pos, MAX_WIRE_NAME as int, r.names);
}

/// The characters of a name that is read are those of a sound name.
pub proof fn lemma_name_chars_read_sound(r: ReaderState)
    requires
        r.wf(),
    ensures
        match name_read(r) {
            Ok((text, r2)) => {
                &&& sound_name(encode_utf8(decode_utf8(text)))
                &&& r2.wf()
                &&& same_message(r, r2)
                &&& r.pos < r2.pos
            },
            Err(_) => true,
        },
{
    lemma_name_read_sound(r);
    match name_read(r) {
        Ok((text, r2)) => {
            vstd::utf8::decode_utf8_encode_utf8(text);
        },
        Err(_) => {},
    }
}

/// A question that is read is sound: it can be written, and is read back as
/// it is.
pub proof fn lemma_question_read_sound(r: ReaderState)
    requires
        r.wf(),
    ensures
        match question_read(r) {
            Ok((q, r2)) => question_sound(q) && r2.wf() && same_message(r, r2),
            Err(_) => true,
        },
{
    lemma_name_chars_read_sound(r);
}

/// A payload that is read is sound under its type code.
pub proof fn lemma_rdata_read_sound(r: ReaderState, rtype: u16)
    requires
        r.wf(),
        r.end - r.pos <= MAX_RDATA,
    ensures
        match rdata_read(r, rtype) {
            Ok((d, names)) => rdata_sound(rtype, d) && crate::compression::sound_table(names),
            Err(_) => true,
        },
{
    if rtype == TYPE_CNAME || rtype == TYPE_NS {
        lemma_name_chars_read_sound(r);
    } else if rtype == TYPE_MX {
        if r.end - r.pos >= 3 {
            lemma_name_chars_read_sound(r.skip(2));
        }
    } else if rtype == TYPE_SOA {
        lemma_name_chars_read_sound(r);
        match name_read(r) {
            Ok((_, r1)) => {
                lemma_name_chars_read_sound(r1);
            },
            Err(_) => {},
        }
    } else if rtype == TYPE_TXT {
        let text = r.buf.subrange(r.pos + 1, r.end);
        if r.end - r.pos >= 1 && valid_utf8(text) {
            vstd::utf8::decode_utf8_encode_utf8(text);
        }
    }
}

/// A record that is read is sound: it can be written, and is read back as
/// it is.
pub proof fn lemma_record_read_sound(r: ReaderState)
    requires
        r.wf(),
    ensures
        match record_read(r) {
            Ok((rec, r2)) => record_sound(rec) && r2.wf() && same_message(r, r2),
            Err(_) => true,
        },
{
    lemma_name_chars_read_sound(r);
    match name_read(r) {
        Ok((_, r1)) => {
            let rtype = crate::wire::u16_at(r.buf, r1.pos);
            let rdlength = crate::wire::u16_at(r.buf, r1.pos + 8);
            let r2 = r1.skip(10);
            if r1.has(10) && r2.has(rdlength as int) {
                lemma_rdata_read_sound(r2.narrow(rdlength as int), rtype);
            }
        },
        Err(_) => {},
    }
}

/// Questions that are read are sound, each of them.
pub proof fn lemma_questions_read_sound(r: ReaderState, n: int)
    requires
        r.wf(),
        0 <= n,
    ensures
        match questions_read(r, n) {
            Ok((qs, r2)) => {
                &&& qs.len() == n
                &&& forall|i: int| 0 <= i < n ==> question_sound(#[trigger] qs[i])
                &&& r2.wf()
                &&& same_message(r, r2)
            },
            Err(_) => true,
        },
    decreases n,
{
    if n > 0 {
        lemma_questions_read_sound(r, n - 1);
        match questions_read(r, n - 1) {
            Ok((_, r1)) => {
                lemma_question_read_sound(r1);
            },
            Err(_) => {},
        }
    }
}

/// Records that are read are sound, each of them.
pub proof fn lemma_records_read_sound(r: ReaderState, n: int)
    requires
        r.wf(),
        0 <= n,
    ensures
        match records_read(r, n) {
            Ok((rs, r2)) => {
                &&& rs.len() == n
                &&& forall|i: int| 0 <= i < n ==> record_sound(#[trigger] rs[i])
                &&& r2.wf()
                &&& same_message(r, r2)
            },
            Err(_) => true,
        },
    decreases n,
{
    if n > 0 {
        lemma_records_read_sound(r, n - 1);
        match records_read(r, n - 1) {
            Ok((_, r1)) => {
                lemma_record_read_sound(r1);
            },
            Err(_) => {},
        }
    }
}

/// The sections that are read under a header are sound.
#[verifier::rlimit(50)]
pub proof fn lemma_sections_read_sound(r: ReaderState, header: Header)
    requires
        r.wf(),
    ensures
        match sections_read(r, header) {
            Ok((m, r2)) => sections_sound(m) && m.header == header && r2.wf(),
            Err(_) => true,
        },
{
    lemma_questions_read_sound(r, header.qdcount as int);
    match questions_read(r, header.qdcount as int) {
        Ok((_, r1)) => {
            lemma_records_read_sound(r1, header.ancount as int);
            match records_read(r1, header.ancount as int) {
                Ok((_, r2)) => {
                    lemma_records_read_sound(r2, header.nscount as int);
                    match records_read(r2, header.nscount as int) {
                        Ok((_, r3)) => {
                            lemma_records_read_sound(r3, header.arcount as int);
                        },
                        Err(_) => {},
                    }
                },
                Err(_) => {},
            }
        },
        Err(_) => {},
    }
}

/// A message that is read is sound: its counts are the lengths of its
/// sections, it can be written, and what is written is read back as it is.
pub proof fn lemma_message_read_sound(r: ReaderState)
    requires
        r.wf(),
    ensures
        match message_read(r) {
            Ok((m, r2)) => message_sound(m) && r2.wf(),
            Err(_) => true,
        },
{
    match crate::header::header_read(r) {
        Ok((header, r0)) => {
            lemma_sections_read_sound(r0, header);
        },
        Err(_) => {},
    }
}

} // verus!
