//! Names on the wire, with compression pointers.
//!
//! One pass over one message owns one table of names. A [`Writer`] holds the
//! octets written so far and, for each name or suffix written in full, the
//! offset at which it starts. A [`Reader`] holds the message, a position in
//! it and the names that it has read, by offset.

use vstd::prelude::*;
use vstd::slice::{slice_subrange, slice_to_vec};
use vstd::utf8::{encode_utf8, valid_utf8, valid_utf8_concat};
use std::collections::HashMap;
use crate::name::{
    canonical, canonical_text, check_name, find_label_end, holds_dot, is_label_start, is_root,
    label_end, labels_fault, lemma_label_end, lemma_label_in_front, lemma_label_of_sound_name,
    lemma_single_label, name_fault, no_dot, sound_name, sound_text, DOT,
};
use crate::text::{lemma_ascii_octet_is_text, string_of, utf8_text};
use crate::wire::{copy_range, push_range, same_octets, WireError};

verus! {

/// Offsets from here on do not fit the 14 bits of a pointer.
pub const POINTER_LIMIT: usize = 16384;

/// The most octets that a name may take on the wire.
pub const MAX_WIRE_NAME: usize = 255;

/// The octets that an item takes on the wire, and the table of names as it
/// stands behind the item.
#[verifier::ext_equal]
pub struct Wire {
    pub bytes: Seq<u8>,
    pub names: Map<Seq<u8>, int>,
}

/// Every offset in the table fits a pointer and lies before `at`.
pub open spec fn table_below(names: Map<Seq<u8>, int>, at: int) -> bool {
    forall|k: Seq<u8>| #[trigger]
        names.contains_key(k) ==> 0 <= names[k] < POINTER_LIMIT && names[k] < at
}

/// The state of a [`Writer`]: the octets written so far, and the offset of
/// each name or suffix that a pointer may refer to.
#[verifier::ext_equal]
pub struct WriterState {
    pub bytes: Seq<u8>,
    pub names: Map<Seq<u8>, int>,
}

impl WriterState {
    /// Nothing written, nothing to point at.
    pub open spec fn fresh() -> WriterState {
        WriterState { bytes: Seq::empty(), names: Map::empty() }
    }

    /// Every offset in the table fits a pointer and lies within what was
    /// written.
    pub open spec fn wf(self) -> bool {
        table_below(self.names, self.bytes.len() as int)
    }

    /// The offset of the next octet.
    pub open spec fn at(self) -> int {
        self.bytes.len() as int
    }

    /// The same table, behind more octets.
    pub open spec fn push(self, more: Seq<u8>) -> WriterState {
        WriterState { bytes: self.bytes + more, names: self.names }
    }

    /// The writer behind an item.
    pub open spec fn put(self, item: Wire) -> WriterState {
        WriterState { bytes: self.bytes + item.bytes, names: item.names }
    }
}

/// The two octets of a pointer to offset `k`.
pub open spec fn pointer_bytes(k: int) -> Seq<u8> {
    seq![(192 + k / 256) as u8, (k % 256) as u8]
}

/// The labels of `t` from the label start `s` on, written at offset `at`: a
/// pointer, where the table holds the suffix that starts at `s`; else the
/// label behind its length, then the rest, and the suffix entered into the
/// table at `at`, unless `at` does not fit a pointer.
pub open spec fn labels_wire(names: Map<Seq<u8>, int>, at: int, t: Seq<u8>, s: int) -> Wire
    decreases t.len() - s,
{
    let suffix = t.skip(s);
    let e = label_end(t, s);
    if s < 0 || s >= t.len() {
        Wire { bytes: Seq::empty(), names }
    } else if names.contains_key(suffix) {
        Wire { bytes: pointer_bytes(names[suffix]), names }
    } else {
        let head = seq![(e - s) as u8] + t.subrange(s, e);
        let rest = if e >= t.len() {
            Wire { bytes: seq![0u8], names }
        } else {
            proof {
                lemma_label_end(t, s);
            }
            labels_wire(names, at + 1 + (e - s), t, e + 1)
        };
        Wire {
            bytes: head + rest.bytes,
            names: if at < POINTER_LIMIT {
                rest.names.insert(suffix, at)
            } else {
                rest.names
            },
        }
    }
}

/// The name `t` written at offset `at`: a zero octet for the root, else its
/// labels. The dot that may end the text is not written.
pub open spec fn name_wire(names: Map<Seq<u8>, int>, at: int, t: Seq<u8>) -> Wire {
    if is_root(canonical(t)) {
        Wire { bytes: seq![0u8], names }
    } else {
        labels_wire(names, at, canonical(t), 0)
    }
}

/// The writer after the name `t`.
pub open spec fn name_put(w: WriterState, t: Seq<u8>) -> WriterState {
    w.put(name_wire(w.names, w.at(), t))
}

/// Labels take at most two octets more on the wire than their text has.
pub proof fn lemma_labels_wire_len(names: Map<Seq<u8>, int>, at: int, t: Seq<u8>, s: int)
    requires
        0 <= s <= t.len(),
    ensures
        labels_wire(names, at, t, s).bytes.len() <= t.len() - s + 2,
    decreases t.len() - s,
{
    let e = label_end(t, s);
    lemma_label_end(t, s);
    if s < t.len() && !names.contains_key(t.skip(s)) && e < t.len() {
        lemma_labels_wire_len(names, at + 1 + (e - s), t, e + 1);
    }
}

/// A name without fault takes at most 255 octets on the wire, pointer or
/// not.
pub proof fn lemma_name_wire_len(names: Map<Seq<u8>, int>, at: int, t: Seq<u8>)
    requires
        name_fault(t) is None,
    ensures
        1 <= name_wire(names, at, t).bytes.len() <= MAX_WIRE_NAME,
{
    if !is_root(canonical(t)) {
        lemma_labels_wire_len(names, at, canonical(t), 0);
    }
}

/// A name or suffix that was written in full, and where it starts. The
/// table is a list of these, searched from its end: a name is found by
/// comparing its octets, and stands for one offset only.
struct NameEntry {
    text: Vec<u8>,
    offset: u16,
}

/// The table that a sequence of entries stands for; a later entry wins.
spec fn entries_map(es: Seq<NameEntry>) -> Map<Seq<u8>, int>
    decreases es.len(),
{
    if es.len() == 0 {
        Map::empty()
    } else {
        entries_map(es.drop_last()).insert(es.last().text@, es.last().offset as int)
    }
}

/// The encode side of one message pass: the octets written so far and the
/// compression table that belongs to them.
pub struct Writer {
    buf: Vec<u8>,
    names: Vec<NameEntry>,
}

impl View for Writer {
    type V = WriterState;

    closed spec fn view(&self) -> WriterState {
        WriterState { bytes: self.buf@, names: entries_map(self.names@) }
    }
}

impl Writer {
    /// The table is sound for the octets written.
    pub open spec fn wf(&self) -> bool {
        self@.wf()
    }

    /// A writer with nothing written.
    pub fn new() -> (w: Writer)
        ensures
            w@ == WriterState::fresh(),
            w.wf(),
    {
        Writer { buf: Vec::new(), names: Vec::new() }
    }

    /// How many octets were written.
    pub fn len(&self) -> (n: usize)
        ensures
            n == self@.bytes.len(),
    {
        self.buf.len()
    }

    /// The octets written so far.
    pub fn as_bytes(&self) -> (b: &[u8])
        ensures
            b@ == self@.bytes,
    {
        self.buf.as_slice()
    }

    /// The octets written, giving up the writer.
    pub fn into_bytes(self) -> (b: Vec<u8>)
        ensures
            b@ == self@.bytes,
    {
        self.buf
    }

    /// Appends one octet.
    pub fn put_u8(&mut self, v: u8)
        requires
            old(self).wf(),
        ensures
            final(self)@ == old(self)@.push(seq![v]),
            final(self).wf(),
    {
        self.buf.push(v);
        assert(self@ =~= old(self)@.push(seq![v]));
    }

    /// Appends a 16-bit value, most significant octet first.
    pub fn put_u16(&mut self, v: u16)
        requires
            old(self).wf(),
        ensures
            final(self)@ == old(self)@.push(crate::wire::be16(v)),
            final(self).wf(),
    {
        crate::wire::push_u16(&mut self.buf, v);
        assert(self@ =~= old(self)@.push(crate::wire::be16(v)));
    }

    /// Appends a 32-bit value, most significant octet first.
    pub fn put_u32(&mut self, v: u32)
        requires
            old(self).wf(),
        ensures
            final(self)@ == old(self)@.push(crate::wire::be32(v)),
            final(self).wf(),
    {
        crate::wire::push_u32(&mut self.buf, v);
        assert(self@ =~= old(self)@.push(crate::wire::be32(v)));
    }

    /// Appends octets as they are.
    pub fn put_bytes(&mut self, data: &[u8])
        requires
            old(self).wf(),
        ensures
            final(self)@ == old(self)@.push(data@),
            final(self).wf(),
    {
        push_range(&mut self.buf, data, 0, data.len());
        assert(data@.subrange(0, data@.len() as int) =~= data@);
        assert(self@ =~= old(self)@.push(data@));
    }

    /// Appends two octets of zero, to be filled in later, and says where
    /// they stand.
    pub fn reserve_u16(&mut self) -> (at: usize)
        requires
            old(self).wf(),
        ensures
            at == old(self)@.at(),
            final(self)@ == old(self)@.push(seq![0u8, 0u8]),
            final(self).wf(),
    {
        let at: usize = self.buf.len();
        self.buf.push(0u8);
        self.buf.push(0u8);
        assert(self@ =~= old(self)@.push(seq![0u8, 0u8]));
        at
    }

    /// Puts a 16-bit value in place of the two octets at `at`.
    pub fn fill_u16(&mut self, at: usize, v: u16)
        requires
            old(self).wf(),
            at + 2 <= old(self)@.bytes.len(),
        ensures
            final(self)@.bytes == old(self)@.bytes.update(at as int, (v / 256) as u8).update(
                at + 1,
                (v % 256) as u8,
            ),
            final(self)@.names == old(self)@.names,
            final(self).wf(),
    {
        let n: usize = self.buf.len();
        assert(at + 2 <= n);
        self.buf.set(at, (v / 256) as u8);
        self.buf.set(at + 1, (v % 256) as u8);
    }

    /// The offset that the table holds for `key`, if it holds one.
    fn find(&self, key: &[u8]) -> (r: Option<u16>)
        ensures
            match r {
                Some(off) => self@.names.contains_key(key@) && self@.names[key@] == off,
                None => !self@.names.contains_key(key@),
            },
    {
        let mut i: usize = self.names.len();
        assert(self.names@.take(i as int) =~= self.names@);
        while i > 0
            invariant
                i <= self.names@.len(),
                entries_map(self.names@).contains_key(key@) <==> entries_map(
                    self.names@.take(i as int),
                ).contains_key(key@),
                entries_map(self.names@).contains_key(key@) ==> entries_map(self.names@)[key@]
                    == entries_map(self.names@.take(i as int))[key@],
            decreases i,
        {
            let ghost prefix = self.names@.take(i as int);
            assert(prefix.drop_last() =~= self.names@.take(i - 1));
            assert(prefix.last() == self.names@[i - 1]);
            i = i - 1;
            if same_octets(self.names[i].text.as_slice(), key) {
                return Some(self.names[i].offset);
            }
        }
        assert(self.names@.take(0) =~= Seq::<NameEntry>::empty());
        None
    }

    /// Enters `key` into the table at `offset`.
    fn note(&mut self, key: &[u8], offset: u16)
        ensures
            final(self)@.bytes == old(self)@.bytes,
            final(self)@.names == old(self)@.names.insert(key@, offset as int),
    {
        let entry = NameEntry { text: slice_to_vec(key), offset };
        self.names.push(entry);
        assert(self.names@.drop_last() =~= old(self).names@);
    }

    /// Writes the labels of `text` from the label start `s` on.
    fn put_labels(&mut self, text: &[u8], s: usize)
        requires
            old(self).wf(),
            labels_fault(text@) is None,
            !is_root(text@),
            is_label_start(text@, s as int),
        ensures
            final(self)@ == old(self)@.put(
                labels_wire(old(self)@.names, old(self)@.at(), text@, s as int),
            ),
            final(self).wf(),
        decreases text@.len() - s,
    {
        proof {
            lemma_label_of_sound_name(text@, s as int);
        }
        let suffix = slice_subrange(text, s, text.len());
        match self.find(suffix) {
            Some(off) => {
                self.buf.push(192 + (off / 256) as u8);
                self.buf.push((off % 256) as u8);
                assert(self@.bytes =~= old(self)@.bytes + pointer_bytes(off as int));
            },
            None => {
                let e: usize = find_label_end(text, s);
                let here: usize = self.buf.len();
                self.buf.push((e - s) as u8);
                push_range(&mut self.buf, text, s, e);
                let ghost head = seq![(e - s) as u8] + text@.subrange(s as int, e as int);
                assert(self@.bytes =~= old(self)@.bytes + head);
                if e >= text.len() {
                    self.buf.push(0u8);
                    assert(self@.bytes =~= old(self)@.bytes + (head + seq![0u8]));
                } else {
                    self.put_labels(text, e + 1);
                    assert(self@.bytes =~= old(self)@.bytes + (head + labels_wire(
                        old(self)@.names,
                        here + 1 + (e - s),
                        text@,
                        e + 1,
                    ).bytes));
                }
                if here < POINTER_LIMIT {
                    self.note(suffix, here as u16);
                }
            },
        }
    }

    /// Writes the name `text`, which has no fault.
    pub fn put_name(&mut self, text: &[u8])
        requires
            old(self).wf(),
            name_fault(text@) is None,
        ensures
            final(self)@ == name_put(old(self)@, text@),
            final(self).wf(),
    {
        let labels = canonical_text(text);
        if labels.len() == 0 {
            self.buf.push(0u8);
            assert(self@ =~= name_put(old(self)@, text@));
        } else {
            self.put_labels(labels, 0);
        }
    }
}

/// Writes `name` at the end of `writer`: each label behind its length, up to
/// the first suffix that was written before, and a pointer to that one; a
/// zero octet in the end where no suffix was. Every suffix written in full
/// is entered into the table, unless it starts at offset 16384 or beyond.
/// A name with a fault is refused, and nothing is written: so is every name
/// with a label of more than 63 octets. A pointer that is written refers to
/// an offset below 16384 that lies before the pointer itself.
pub fn compress_name(writer: &mut Writer, name: &str) -> (r: Result<(), WireError>)
    requires
        old(writer).wf(),
    ensures
        final(writer).wf(),
        match name_fault(encode_utf8(name@)) {
            Some(e) => r == Err::<(), WireError>(e) && final(writer)@ == old(writer)@,
            None => r is Ok && final(writer)@ == name_put(old(writer)@, encode_utf8(name@)),
        },
        crate::name::has_long_label(encode_utf8(name@)) ==> r == Err::<(), WireError>(
            WireError::LabelTooLong,
        ),
        r is Ok ==> match crate::pointers::name_pointer(old(writer)@.names, encode_utf8(name@)) {
            Some((h, k)) => 0 <= k < POINTER_LIMIT && k < old(writer)@.at() + h,
            None => true,
        },
{
    let text = name.as_bytes();
    proof {
        crate::name::lemma_long_label_canonical(text@);
    }
    match check_name(text) {
        Some(e) => Err(e),
        None => {
            proof {
                crate::pointers::lemma_pointer_points_back(writer@.names, writer@.at(), text@);
            }
            writer.put_name(text);
            Ok(())
        },
    }
}

/// Writes `qname` at the end of `out` in full, without pointers: each label
/// behind its length, and a zero octet in the end. A name with a fault is
/// refused, and nothing is written.
pub fn write_qname(out: &mut Vec<u8>, qname: &str) -> (r: Result<(), WireError>)
    ensures
        match name_fault(encode_utf8(qname@)) {
            Some(e) => r == Err::<(), WireError>(e) && final(out)@ == old(out)@,
            None => r is Ok && final(out)@ == old(out)@ + crate::name::plain_name(
                encode_utf8(qname@),
            ),
        },
{
    let text = qname.as_bytes();
    match check_name(text) {
        Some(e) => Err(e),
        None => {
            let mut alone = Writer::new();
            proof {
                if !is_root(canonical(text@)) {
                    crate::pointers::lemma_first_reuse(alone@.names, canonical(text@), 0);
                }
                crate::pointers::lemma_name_wire_form(alone@.names, 0, text@);
            }
            alone.put_name(text);
            let bytes = alone.into_bytes();
            push_range(out, bytes.as_slice(), 0, bytes.len());
            assert(bytes@.subrange(0, bytes@.len() as int) =~= bytes@);
            assert(bytes@ =~= crate::name::plain_name(text@));
            Ok(())
        },
    }
}

/// Every text in the table is that of a name with at least one label: valid
/// UTF-8, every label of 1 to 63 octets, at most 253 octets in all, and no
/// dot at its end.
pub open spec fn sound_table(names: Map<int, Seq<u8>>) -> bool {
    forall|k: int| #[trigger] names.contains_key(k) ==> sound_text(names[k]) && names[k].len() > 0
}

/// The state of a [`Reader`]: the message, the position of the next octet,
/// the position at which reading has to stop, and the names read so far, by
/// the offset at which each starts.
#[verifier::ext_equal]
pub struct ReaderState {
    pub buf: Seq<u8>,
    pub pos: int,
    pub end: int,
    pub names: Map<int, Seq<u8>>,
}

impl ReaderState {
    /// At the start of `buf`, with no name read.
    pub open spec fn start(buf: Seq<u8>) -> ReaderState {
        ReaderState { buf, pos: 0, end: buf.len() as int, names: Map::empty() }
    }

    /// The position lies within the bounds, and every text in the table is
    /// that of a sound name.
    pub open spec fn wf(self) -> bool {
        &&& 0 <= self.pos <= self.end <= self.buf.len()
        &&& sound_table(self.names)
    }

    /// `n` more octets can be read.
    pub open spec fn has(self, n: int) -> bool {
        self.pos + n <= self.end
    }

    /// The same reader, `n` octets further on.
    pub open spec fn skip(self, n: int) -> ReaderState {
        ReaderState { buf: self.buf, pos: self.pos + n, end: self.end, names: self.names }
    }

    /// The same reader, bound to stop after `n` octets.
    pub open spec fn narrow(self, n: int) -> ReaderState {
        ReaderState { buf: self.buf, pos: self.pos, end: self.pos + n, names: self.names }
    }

    /// The reader at the end of its bounds, with the bounds `outer` again.
    pub open spec fn leave(self, outer: int) -> ReaderState {
        ReaderState { buf: self.buf, pos: self.end, end: outer, names: self.names }
    }
}

/// A label in front of the text of the labels that follow it.
pub open spec fn join_labels(label: Seq<u8>, rest: Seq<u8>) -> Seq<u8> {
    if rest.len() == 0 {
        label
    } else {
        label + seq![DOT] + rest
    }
}

/// The octets that a name of this text takes on the wire, written in full.
pub open spec fn wire_size(text: Seq<u8>) -> int {
    if text.len() == 0 {
        1
    } else {
        text.len() as int + 2
    }
}

/// The offset that the pointer at `p` refers to.
pub open spec fn pointer_target(buf: Seq<u8>, p: int) -> int {
    (buf[p] - 192) * 256 + buf[p + 1]
}

/// What reading the rest of a name at `p` gives: its text, the position
/// behind it and the table with its suffixes entered; or the fault.
///
/// The name began at `start`, may go on up to `end` and has `room` octets
/// left of the 255 that a name may take. A zero octet ends it. An octet of
/// 192 or more is the first of a pointer: the text recorded at its target
/// ends the name. A target within the name read so far, the pointer itself
/// included, is a loop. A target behind the pointer, or one at which no
/// name was recorded, is no target. Any other octet up
/// to 63 is the length of a label, which has to be valid UTF-8 and to hold
/// no dot: a dot in a label would read as the end of a label.
pub open spec fn labels_read(
    buf: Seq<u8>,
    p: int,
    end: int,
    start: int,
    room: int,
    names: Map<int, Seq<u8>>,
) -> Result<(Seq<u8>, int, Map<int, Seq<u8>>), WireError>
    decreases end - p,
{
    if p < 0 || p >= end {
        Err(WireError::Truncated)
    } else if buf[p] == 0 {
        Ok((Seq::empty(), p + 1, names))
    } else if buf[p] >= 192 {
        let target = pointer_target(buf, p);
        if p + 1 >= end {
            Err(WireError::Truncated)
        } else if start <= target <= p {
            Err(WireError::PointerLoop)
        } else if target > p || !names.contains_key(target) {
            Err(WireError::InvalidPointer)
        } else if wire_size(names[target]) > room {
            Err(WireError::NameTooLong)
        } else {
            Ok((names[target], p + 2, names))
        }
    } else if buf[p] >= 64 {
        Err(WireError::LabelTooLong)
    } else {
        let l = buf[p] as int;
        let label = buf.subrange(p + 1, p + 1 + l);
        if p + 1 + l > end {
            Err(WireError::Truncated)
        } else if l + 2 > room {
            Err(WireError::NameTooLong)
        } else if !valid_utf8(label) || !no_dot(label, 0, l) {
            Err(WireError::InvalidLabel)
        } else {
            match labels_read(buf, p + 1 + l, end, start, room - 1 - l, names) {
                Err(e) => Err(e),
                Ok((rest, next, names2)) => {
                    let text = join_labels(label, rest);
                    Ok(
                        (
                            text,
                            next,
                            if p < POINTER_LIMIT {
                                names2.insert(p, text)
                            } else {
                                names2
                            },
                        ),
                    )
                },
            }
        }
    }
}

/// What reading a name at the reader's position gives: its text and the
/// reader behind it, or the fault.
pub open spec fn name_read(r: ReaderState) -> Result<(Seq<u8>, ReaderState), WireError> {
    match labels_read(r.buf, r.pos, r.end, r.pos, MAX_WIRE_NAME as int, r.names) {
        Ok((text, next, names)) => Ok(
            (text, ReaderState { buf: r.buf, pos: next, end: r.end, names }),
        ),
        Err(e) => Err(e),
    }
}

/// A name that was read is that of a sound name within the room it had: its
/// labels have 1 to 63 octets and it takes at most 255 octets on the wire.
/// It ends within the bounds, and the table stays one of sound names.
pub proof fn lemma_labels_read_sound(
    buf: Seq<u8>,
    p: int,
    end: int,
    start: int,
    room: int,
    names: Map<int, Seq<u8>>,
)
    requires
        0 <= p <= end <= buf.len(),
        1 <= room <= MAX_WIRE_NAME,
        sound_table(names),
    ensures
        match labels_read(buf, p, end, start, room, names) {
            Ok((text, next, names2)) => {
                &&& sound_text(text)
                &&& sound_name(text)
                &&& wire_size(text) <= room
                &&& p < next <= end
                &&& sound_table(names2)
            },
            Err(_) => true,
        },
    decreases end - p,
{
    if p < end && 0 < buf[p] < 64 {
        let l = buf[p] as int;
        let label = buf.subrange(p + 1, p + 1 + l);
        if p + 1 + l <= end && l + 2 <= room && valid_utf8(label) && no_dot(label, 0, l) {
            lemma_labels_read_sound(buf, p + 1 + l, end, start, room - 1 - l, names);
            match labels_read(buf, p + 1 + l, end, start, room - 1 - l, names) {
                Ok((rest, next, names2)) => {
                    if rest.len() > 0 {
                        lemma_ascii_octet_is_text(DOT);
                        valid_utf8_concat(label, seq![DOT]);
                        valid_utf8_concat(label + seq![DOT], rest);
                        lemma_label_in_front(label, rest);
                    } else {
                        lemma_single_label(label);
                    }
                },
                Err(_) => {},
            }
        }
    } else if p < end && buf[p] == 0 {
        assert(valid_utf8(Seq::<u8>::empty()));
        assert forall|i: int| !crate::name::long_run_at(Seq::<u8>::empty(), i) by {}
    } else if p < end && buf[p] >= 192 {
        let target = pointer_target(buf, p);
        if names.contains_key(target) {
            assert(sound_text(names[target]));
        }
    }
}

/// The decode side of one message pass: the message, a position in it and
/// the names read so far.
pub struct Reader<'a> {
    buf: &'a [u8],
    pos: usize,
    end: usize,
    names: HashMap<u16, Vec<u8>>,
}

impl<'a> View for Reader<'a> {
    type V = ReaderState;

    closed spec fn view(&self) -> ReaderState {
        ReaderState {
            buf: self.buf@,
            pos: self.pos as int,
            end: self.end as int,
            names: Map::new(
                |k: int| 0 <= k <= u16::MAX && self.names@.contains_key(k as u16),
                |k: int| self.names@[k as u16]@,
            ),
        }
    }
}

impl<'a> Reader<'a> {
    /// The position lies within the bounds and the table holds sound names.
    pub open spec fn wf(&self) -> bool {
        self@.wf()
    }

    /// A reader at the start of `buf`.
    pub fn new(buf: &'a [u8]) -> (r: Reader<'a>)
        ensures
            r@ == ReaderState::start(buf@),
            r.wf(),
    {
        let r = Reader { buf, pos: 0, end: buf.len(), names: HashMap::new() };
        assert(r@ =~= ReaderState::start(buf@));
        r
    }

    /// The position of the next octet.
    pub fn position(&self) -> (p: usize)
        ensures
            p == self@.pos,
    {
        self.pos
    }

    /// How many octets are left to read.
    pub fn remaining(&self) -> (n: usize)
        requires
            self.wf(),
        ensures
            n == self@.end - self@.pos,
    {
        self.end - self.pos
    }

    /// Reads one octet.
    pub fn read_u8(&mut self) -> (r: Result<u8, WireError>)
        requires
            old(self).wf(),
        ensures
            final(self).wf(),
            match r {
                Ok(v) => old(self)@.has(1) && v == old(self)@.buf[old(self)@.pos] && final(self)@
                    == old(self)@.skip(1),
                Err(e) => !old(self)@.has(1) && e == WireError::Truncated && final(self)@ == old(self)@,
            },
    {
        if self.end - self.pos < 1 {
            return Err(WireError::Truncated);
        }
        let v: u8 = self.buf[self.pos];
        self.pos = self.pos + 1;
        assert(self@ =~= old(self)@.skip(1));
        Ok(v)
    }

    /// Reads a 16-bit value, most significant octet first.
    pub fn read_u16(&mut self) -> (r: Result<u16, WireError>)
        requires
            old(self).wf(),
        ensures
            final(self).wf(),
            match r {
                Ok(v) => old(self)@.has(2) && v == crate::wire::u16_at(
                    old(self)@.buf,
                    old(self)@.pos,
                ) && final(self)@ == old(self)@.skip(2),
                Err(e) => !old(self)@.has(2) && e == WireError::Truncated && final(self)@ == old(self)@,
            },
    {
        if self.end - self.pos < 2 {
            return Err(WireError::Truncated);
        }
        let hi: u16 = self.buf[self.pos] as u16;
        let lo: u16 = self.buf[self.pos + 1] as u16;
        self.pos = self.pos + 2;
        assert(self@ =~= old(self)@.skip(2));
        Ok(hi * 256 + lo)
    }

    /// Reads a 32-bit value, most significant octet first.
    pub fn read_u32(&mut self) -> (r: Result<u32, WireError>)
        requires
            old(self).wf(),
        ensures
            final(self).wf(),
            match r {
                Ok(v) => old(self)@.has(4) && v == crate::wire::u32_at(
                    old(self)@.buf,
                    old(self)@.pos,
                ) && final(self)@ == old(self)@.skip(4),
                Err(e) => !old(self)@.has(4) && e == WireError::Truncated && final(self)@ == old(self)@,
            },
    {
        if self.end - self.pos < 4 {
            return Err(WireError::Truncated);
        }
        let b0: u32 = self.buf[self.pos] as u32;
        let b1: u32 = self.buf[self.pos + 1] as u32;
        let b2: u32 = self.buf[self.pos + 2] as u32;
        let b3: u32 = self.buf[self.pos + 3] as u32;
        self.pos = self.pos + 4;
        assert(self@ =~= old(self)@.skip(4));
        Ok(b0 * 16777216 + b1 * 65536 + b2 * 256 + b3)
    }

    /// Reads `n` octets as they are.
    pub fn read_bytes(&mut self, n: usize) -> (r: Result<Vec<u8>, WireError>)
        requires
            old(self).wf(),
        ensures
            final(self).wf(),
            match r {
                Ok(v) => old(self)@.has(n as int) && v@ == old(self)@.buf.subrange(
                    old(self)@.pos,
                    old(self)@.pos + n,
                ) && final(self)@ == old(self)@.skip(n as int),
                Err(e) => !old(self)@.has(n as int) && e == WireError::Truncated && final(self)@
                    == old(self)@,
            },
    {
        if self.end - self.pos < n {
            return Err(WireError::Truncated);
        }
        let v = copy_range(self.buf, self.pos, self.pos + n);
        self.pos = self.pos + n;
        assert(self@ =~= old(self)@.skip(n as int));
        Ok(v)
    }

    /// Binds the reader to stop after `n` octets, and says where it had to
    /// stop before.
    pub fn narrow(&mut self, n: usize) -> (outer: usize)
        requires
            old(self).wf(),
            old(self)@.has(n as int),
        ensures
            outer == old(self)@.end,
            final(self)@ == old(self)@.narrow(n as int),
            final(self).wf(),
    {
        let outer: usize = self.end;
        self.end = self.pos + n;
        assert(self@ =~= old(self)@.narrow(n as int));
        outer
    }

    /// Moves the reader to the end of its bounds and sets the bounds to
    /// `outer`.
    pub fn leave(&mut self, outer: usize)
        requires
            old(self).wf(),
            old(self)@.end <= outer <= old(self)@.buf.len(),
        ensures
            final(self)@ == old(self)@.leave(outer as int),
            final(self).wf(),
    {
        self.pos = self.end;
        self.end = outer;
        assert(self@ =~= old(self)@.leave(outer as int));
    }

    /// Enters `text` into the table at `offset`.
    fn note(&mut self, offset: u16, text: Vec<u8>)
        ensures
            final(self)@ == (ReaderState {
                buf: old(self)@.buf,
                pos: old(self)@.pos,
                end: old(self)@.end,
                names: old(self)@.names.insert(offset as int, text@),
            }),
    {
        broadcast use vstd::std_specs::hash::group_hash_axioms;

        self.names.insert(offset, text);
        assert(self@.names =~= old(self)@.names.insert(offset as int, text@));
    }

    /// Reads the rest of a name that began at `start` and has `room` octets
    /// left.
    fn read_labels(&mut self, start: usize, room: usize) -> (r: Result<Vec<u8>, WireError>)
        requires
            old(self).wf(),
            1 <= room <= MAX_WIRE_NAME,
        ensures
            final(self).wf(),
            final(self)@.buf == old(self)@.buf,
            final(self)@.end == old(self)@.end,
            match labels_read(
                old(self)@.buf,
                old(self)@.pos,
                old(self)@.end,
                start as int,
                room as int,
                old(self)@.names,
            ) {
                Ok((text, next, names)) => r is Ok && r->Ok_0@ == text && final(self)@.pos == next
                    && final(self)@.names == names,
                Err(e) => r == Err::<Vec<u8>, WireError>(e) && final(self)@.names == old(self)@.names,
            },
        decreases old(self).view().end - old(self).view().pos,
    {
        broadcast use vstd::std_specs::hash::group_hash_axioms;

        proof {
            lemma_labels_read_sound(
                self@.buf,
                self@.pos,
                self@.end,
                start as int,
                room as int,
                self@.names,
            );
        }
        let p: usize = self.pos;
        if p >= self.end {
            return Err(WireError::Truncated);
        }
        let first: u8 = self.buf[p];
        if first == 0 {
            self.pos = p + 1;
            return Ok(Vec::new());
        }
        if first >= 192 {
            if p + 1 >= self.end {
                return Err(WireError::Truncated);
            }
            let target: usize = (first - 192) as usize * 256 + self.buf[p + 1] as usize;
            if start <= target && target <= p {
                return Err(WireError::PointerLoop);
            }
            if target > p {
                return Err(WireError::InvalidPointer);
            }
            match self.names.get(&(target as u16)) {
                None => {
                    return Err(WireError::InvalidPointer);
                },
                Some(found) => {
                    if found.len() > 0 && (found.len() > MAX_WIRE_NAME || found.len() + 2 > room) {
                        return Err(WireError::NameTooLong);
                    }
                    let text = copy_range(found.as_slice(), 0, found.len());
                    assert(found@.subrange(0, found@.len() as int) =~= found@);
                    self.pos = p + 2;
                    return Ok(text);
                },
            }
        }
        if first >= 64 {
            return Err(WireError::LabelTooLong);
        }
        let l: usize = first as usize;
        if self.end - p - 1 < l {
            return Err(WireError::Truncated);
        }
        if l + 2 > room {
            return Err(WireError::NameTooLong);
        }
        let label = slice_subrange(self.buf, p + 1, p + 1 + l);
        if utf8_text(label).is_none() || holds_dot(label) {
            return Err(WireError::InvalidLabel);
        }
        self.pos = p + 1 + l;
        match self.read_labels(start, room - 1 - l) {
            Err(e) => Err(e),
            Ok(rest) => {
                let mut text = slice_to_vec(label);
                if rest.len() > 0 {
                    text.push(DOT);
                    push_range(&mut text, rest.as_slice(), 0, rest.len());
                    assert(rest@.subrange(0, rest@.len() as int) =~= rest@);
                    assert(text@ =~= join_labels(label@, rest@));
                }
                if p < POINTER_LIMIT {
                    let kept = copy_range(text.as_slice(), 0, text.len());
                    assert(text@.subrange(0, text@.len() as int) =~= text@);
                    self.note(p as u16, kept);
                }
                Ok(text)
            },
        }
    }

    /// Reads a name as the octets of its text.
    pub fn take_name(&mut self) -> (r: Result<Vec<u8>, WireError>)
        requires
            old(self).wf(),
        ensures
            final(self).wf(),
            match name_read(old(self)@) {
                Ok((text, state)) => r is Ok && r->Ok_0@ == text && final(self)@ == state
                    && sound_text(text) && sound_name(text),
                Err(e) => r == Err::<Vec<u8>, WireError>(e) && final(self)@ == old(self)@,
            },
    {
        proof {
            lemma_labels_read_sound(
                self@.buf,
                self@.pos,
                self@.end,
                self@.pos,
                MAX_WIRE_NAME as int,
                self@.names,
            );
        }
        let start: usize = self.pos;
        match self.read_labels(start, MAX_WIRE_NAME) {
            Ok(text) => {
                assert(self@ =~= name_read(old(self)@)->Ok_0.1);
                Ok(text)
            },
            Err(e) => {
                self.pos = start;
                assert(self@ =~= old(self)@);
                Err(e)
            },
        }
    }
}

/// Reads a name at the reader's position: labels up to a zero octet or to
/// a pointer, whose target has to lie before the name and to be the start of
/// a name or suffix read before. Every suffix that starts with a label of
/// this name is entered into the table, unless it starts at offset 16384 or
/// beyond. On a fault the reader stays as it was. A pointer that points at
/// itself or into the labels of its own name is refused as a loop. A
/// pointer that points behind itself, or at an offset at which no name was
/// recorded, is refused as invalid. A name that is read is a
/// sound name: each label has 1 to 63 octets and no dot in it, the name
/// takes at most 255 octets on the wire, and it can be written again.
pub fn decompress_name(reader: &mut Reader) -> (r: Result<String, WireError>)
    requires
        old(reader).wf(),
    ensures
        final(reader).wf(),
        match name_read(old(reader)@) {
            Ok((text, state)) => r is Ok && encode_utf8(r->Ok_0@) == text && final(reader)@
                == state && sound_name(text),
            Err(e) => r == Err::<String, WireError>(e) && final(reader)@ == old(reader)@,
        },
        old(reader)@.has(2) && old(reader)@.buf[old(reader)@.pos] >= 192 && pointer_target(
            old(reader)@.buf,
            old(reader)@.pos,
        ) == old(reader)@.pos ==> r == Err::<String, WireError>(WireError::PointerLoop),
        old(reader)@.has(2) && old(reader)@.buf[old(reader)@.pos] >= 192 && (pointer_target(
            old(reader)@.buf,
            old(reader)@.pos,
        ) != old(reader)@.pos && !old(reader)@.names.contains_key(
            pointer_target(old(reader)@.buf, old(reader)@.pos),
        ) || pointer_target(old(reader)@.buf, old(reader)@.pos) > old(reader)@.pos) ==> r == Err::<
            String,
            WireError,
        >(WireError::InvalidPointer),
{
    match reader.take_name() {
        Err(e) => Err(e),
        Ok(text) => match string_of(text.as_slice()) {
            Some(name) => Ok(name),
            None => vstd::pervasive::unreached(),
        },
    }
}

} // verus!
