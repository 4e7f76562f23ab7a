//! What a name looks like on the wire: its pointer-free form up to the first
//! suffix that was written before, and a pointer back to that one.

use vstd::prelude::*;
use crate::compression::{
    labels_read, labels_wire, name_wire, pointer_bytes, pointer_target, table_below,
    POINTER_LIMIT,
};
use crate::name::{
    canonical, is_label_start, is_root, label_end, labels_fault, lemma_label_end,
    lemma_label_of_sound_name, name_fault, plain_labels, plain_name,
};
use crate::wire::WireError;

verus! {

/// The first label start of `t`, from `s` on, at which a suffix begins that
/// the table holds; the length of `t` where there is none.
pub open spec fn first_reuse(names: Map<Seq<u8>, int>, t: Seq<u8>, s: int) -> int
    decreases t.len() - s,
{
    let e = label_end(t, s);
    if s < 0 || s >= t.len() {
        t.len() as int
    } else if names.contains_key(t.skip(s)) {
        s
    } else if e >= t.len() {
        t.len() as int
    } else {
        proof {
            lemma_label_end(t, s);
        }
        first_reuse(names, t, e + 1)
    }
}

/// The pointer that the name `t` ends in when it is written with the table
/// `names`: where it stands, counted from the start of the name, and the
/// offset that it refers to. Nothing where the name is written in full.
pub open spec fn name_pointer(names: Map<Seq<u8>, int>, t: Seq<u8>) -> Option<(int, int)> {
    let c = canonical(t);
    let h = first_reuse(names, c, 0);
    if is_root(c) || h >= c.len() {
        None
    } else {
        Some((h, names[c.skip(h)]))
    }
}

/// The first reuse is a label start whose suffix the table holds, and no
/// label start before it is one.
pub proof fn lemma_first_reuse(names: Map<Seq<u8>, int>, t: Seq<u8>, s: int)
    requires
        labels_fault(t) is None,
        !is_root(t),
        is_label_start(t, s),
    ensures
        s <= first_reuse(names, t, s) <= t.len(),
        first_reuse(names, t, s) < t.len() ==> is_label_start(t, first_reuse(names, t, s))
            && names.contains_key(t.skip(first_reuse(names, t, s))),
        forall|k: int|
            s <= k < first_reuse(names, t, s) && is_label_start(t, k) ==> !names.contains_key(
                #[trigger] t.skip(k),
            ),
    decreases t.len() - s,
{
    let e = label_end(t, s);
    lemma_label_of_sound_name(t, s);
    lemma_label_end(t, s);
    if !names.contains_key(t.skip(s)) && e < t.len() {
        lemma_first_reuse(names, t, e + 1);
        assert forall|k: int|
            s <= k < first_reuse(names, t, s) && is_label_start(t, k) implies !names.contains_key(
            #[trigger] t.skip(k),
        ) by {
            if s < k <= e {
                assert(t[k - 1] != crate::name::DOT);
            }
        }
    }
}

/// Labels without fault stand on the wire as in the pointer-free form, up
/// to the first reuse; there a pointer to the offset that the table holds
/// ends the name.
pub proof fn lemma_labels_wire_form(names: Map<Seq<u8>, int>, at: int, t: Seq<u8>, s: int)
    requires
        labels_fault(t) is None,
        !is_root(t),
        is_label_start(t, s),
    ensures
        first_reuse(names, t, s) < t.len() ==> labels_wire(names, at, t, s).bytes
            == plain_labels(t).subrange(s, first_reuse(names, t, s)) + pointer_bytes(
            names[t.skip(first_reuse(names, t, s))],
        ),
        first_reuse(names, t, s) >= t.len() ==> labels_wire(names, at, t, s).bytes
            == plain_labels(t).skip(s),
    decreases t.len() - s,
{
    let e = label_end(t, s);
    let h = first_reuse(names, t, s);
    let plain = plain_labels(t);
    let bytes = labels_wire(names, at, t, s).bytes;
    lemma_label_of_sound_name(t, s);
    lemma_label_end(t, s);
    lemma_first_reuse(names, t, s);
    if names.contains_key(t.skip(s)) {
        assert(bytes =~= plain.subrange(s, s) + pointer_bytes(names[t.skip(s)]));
    } else {
        let head = seq![(e - s) as u8] + t.subrange(s, e);
        assert(head =~= plain.subrange(s, e + 1)) by {
            assert(plain[s] == (e - s) as u8);
            assert forall|j: int| s < j <= e implies #[trigger] plain[j] == t[j - 1] by {
                assert(t[j - 1] != crate::name::DOT);
            }
        }
        if e >= t.len() {
            assert(bytes =~= plain.skip(s));
        } else {
            lemma_labels_wire_form(names, at + 1 + (e - s), t, e + 1);
            let rest = labels_wire(names, at + 1 + (e - s), t, e + 1).bytes;
            assert(bytes == head + rest);
            if h < t.len() {
                assert(bytes =~= plain.subrange(s, h) + pointer_bytes(names[t.skip(h)]));
            } else {
                assert(bytes =~= plain.skip(s));
            }
        }
    }
}

/// What a name without fault looks like on the wire. Where no suffix of it
/// was written before, it stands in its pointer-free form. Else it stands in
/// that form up to the first such suffix, and a pointer ends it.
pub proof fn lemma_name_wire_form(names: Map<Seq<u8>, int>, at: int, t: Seq<u8>)
    requires
        name_fault(t) is None,
    ensures
        match name_pointer(names, t) {
            Some((h, k)) => {
                &&& 0 <= h < canonical(t).len()
                &&& is_label_start(canonical(t), h)
                &&& names.contains_key(canonical(t).skip(h))
                &&& k == names[canonical(t).skip(h)]
                &&& name_wire(names, at, t).bytes == plain_name(t).take(h) + pointer_bytes(k)
            },
            None => name_wire(names, at, t).bytes == plain_name(t),
        },
{
    let c = canonical(t);
    if !is_root(c) {
        lemma_first_reuse(names, c, 0);
        lemma_labels_wire_form(names, at, c, 0);
        assert(plain_labels(c).skip(0) =~= plain_labels(c));
        assert(plain_labels(c).subrange(0, first_reuse(names, c, 0)) =~= plain_labels(c).take(
            first_reuse(names, c, 0),
        ));
    }
}

/// Every pointer points back: the offset in the pointer that ends a name
/// is below 16384 and lies before the pointer itself.
pub proof fn lemma_pointer_points_back(names: Map<Seq<u8>, int>, at: int, t: Seq<u8>)
    requires
        name_fault(t) is None,
        table_below(names, at),
    ensures
        match name_pointer(names, t) {
            Some((h, k)) => 0 <= k < POINTER_LIMIT && k < at + h,
            None => true,
        },
{
    lemma_name_wire_form(names, at, t);
}

/// A name stands on the wire in its pointer-free form, or is strictly
/// shorter: the latter where the table holds one of its suffixes.
pub proof fn lemma_name_plain_or_shorter(names: Map<Seq<u8>, int>, at: int, t: Seq<u8>)
    requires
        name_fault(t) is None,
    ensures
        match name_pointer(names, t) {
            Some(_) => name_wire(names, at, t).bytes.len() < plain_name(t).len(),
            None => name_wire(names, at, t).bytes == plain_name(t),
        },
{
    lemma_name_wire_form(names, at, t);
}

/// Where the table holds the suffix of a name that begins at the label
/// start `s`, the name ends in a pointer, at `s` or before it.
pub proof fn lemma_known_suffix_is_reused(names: Map<Seq<u8>, int>, t: Seq<u8>, s: int)
    requires
        name_fault(t) is None,
        is_label_start(canonical(t), s),
        names.contains_key(canonical(t).skip(s)),
    ensures
        name_pointer(names, t) matches Some((h, _)) && h <= s,
{
    lemma_first_reuse(names, canonical(t), 0);
}

/// A pointer that does not point before the name it stands in is refused,
/// whatever the table holds: a name can only go on in what was read before
/// it began. Where the target lies within the name read so far, the pointer
/// itself included, following it would never end: that is a loop. Where the
/// target lies behind the pointer, nothing was read there: that is no
/// target.
pub proof fn lemma_pointer_not_back_is_refused(
    buf: Seq<u8>,
    p: int,
    end: int,
    start: int,
    room: int,
    names: Map<int, Seq<u8>>,
)
    requires
        0 <= p,
        p + 1 < end,
        buf[p] >= 192,
        pointer_target(buf, p) >= start,
    ensures
        labels_read(buf, p, end, start, room, names) == Err::<
            (Seq<u8>, int, Map<int, Seq<u8>>),
            WireError,
        >(
            if pointer_target(buf, p) <= p {
                WireError::PointerLoop
            } else {
                WireError::InvalidPointer
            },
        ),
{
}

} // verus!
