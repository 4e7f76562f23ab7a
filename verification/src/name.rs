//! Domain names as text: labels of 1 to 63 octets, separated by dots.
//!
//! A name is held as the UTF-8 octets of its dotted text. One dot may end
//! the text: it stands for the root that ends every name, and is not
//! written. The root itself is the empty text, or a single dot. On the wire
//! a name takes two octets more than its labels and the dots between them,
//! so labels of up to 253 octets fit the 255 of a wire name.

use vstd::prelude::*;
use vstd::utf8::valid_utf8;
use crate::wire::WireError;

verus! {

/// The octet that separates labels in the text of a name.
pub const DOT: u8 = 46;

/// The longest label, in octets.
pub const MAX_LABEL: usize = 63;

/// The most octets that labels and the dots between them may have, for
/// their wire form to stay within 255 octets.
pub const MAX_TEXT: usize = 253;

/// The labels of a name as text: the text without the dot that may end it.
pub open spec fn canonical(t: Seq<u8>) -> Seq<u8> {
    if t.len() > 0 && t.last() == DOT {
        t.drop_last()
    } else {
        t
    }
}

/// The labels of the root: none.
pub open spec fn is_root(c: Seq<u8>) -> bool {
    c.len() == 0
}

/// No dot stands in `t[from..to]`.
pub open spec fn no_dot(t: Seq<u8>, from: int, to: int) -> bool {
    forall|k: int| from <= k < to ==> t[k] != DOT
}

/// 64 octets without a dot start at `i`.
pub open spec fn long_run_at(t: Seq<u8>, i: int) -> bool {
    0 <= i && i + 64 <= t.len() && no_dot(t, i, i + 64)
}

/// Some label of `t` has more than 63 octets.
pub open spec fn has_long_label(t: Seq<u8>) -> bool {
    exists|i: int| long_run_at(t, i)
}

/// Two dots stand side by side at `i`.
pub open spec fn double_dot_at(t: Seq<u8>, i: int) -> bool {
    0 <= i && i + 1 < t.len() && t[i] == DOT && t[i + 1] == DOT
}

/// Some label of `t` is empty: the text is empty, starts or ends with a dot,
/// or holds two dots side by side.
pub open spec fn has_empty_label(t: Seq<u8>) -> bool {
    t.len() == 0 || t[0] == DOT || t[t.len() - 1] == DOT || exists|i: int| double_dot_at(t, i)
}

/// Why the labels `c` cannot be written, if they cannot: a label of more
/// than 63 octets, an empty label, or more than 253 octets in all.
pub open spec fn labels_fault(c: Seq<u8>) -> Option<WireError> {
    if has_long_label(c) {
        Some(WireError::LabelTooLong)
    } else if is_root(c) {
        None
    } else if has_empty_label(c) {
        Some(WireError::EmptyLabel)
    } else if c.len() > MAX_TEXT {
        Some(WireError::NameTooLong)
    } else {
        None
    }
}

/// Why the text `t` cannot be written as a name, if it cannot.
pub open spec fn name_fault(t: Seq<u8>) -> Option<WireError> {
    labels_fault(canonical(t))
}

/// The text of a name that can be written and is read back as it is: it
/// has no fault and no dot at its end.
pub open spec fn sound_name(t: Seq<u8>) -> bool {
    name_fault(t) is None && canonical(t) == t
}

/// The text of a name as it is read: valid UTF-8, every label of 1 to 63
/// octets, at most 253 octets in all, and no dot at its end. The empty text
/// is that of the root.
pub open spec fn sound_text(t: Seq<u8>) -> bool {
    valid_utf8(t) && labels_fault(t) is None
}

/// A label starts at `s`: at the start of the text, or right after a dot.
pub open spec fn is_label_start(t: Seq<u8>, s: int) -> bool {
    0 <= s < t.len() && (s == 0 || t[s - 1] == DOT)
}

/// Where the label that holds position `i` ends: the first dot at or after
/// `i`, or the end of the text.
pub open spec fn label_end(t: Seq<u8>, i: int) -> int
    decreases t.len() - i,
{
    if 0 <= i < t.len() && t[i] != DOT {
        label_end(t, i + 1)
    } else {
        i
    }
}

/// The pointer-free wire form of a name.
pub open spec fn plain_name(t: Seq<u8>) -> Seq<u8> {
    plain_labels(canonical(t))
}

/// The pointer-free wire form of labels: each label behind its length, then
/// a zero octet. It has the layout of the text moved up by one octet, with
/// the length of the label that follows in place of each dot.
pub open spec fn plain_labels(t: Seq<u8>) -> Seq<u8> {
    if is_root(t) {
        seq![0u8]
    } else {
        Seq::new(
            t.len() + 2,
            |j: int|
                if j == t.len() + 1 {
                    0u8
                } else if j == 0 || t[j - 1] == DOT {
                    (label_end(t, j) - j) as u8
                } else {
                    t[j - 1]
                },
        )
    }
}

/// `label_end` finds the end of the label: nothing before it is a dot, and
/// it is a dot unless it is the end of the text.
pub proof fn lemma_label_end(t: Seq<u8>, i: int)
    requires
        0 <= i <= t.len(),
    ensures
        i <= label_end(t, i) <= t.len(),
        no_dot(t, i, label_end(t, i)),
        label_end(t, i) < t.len() ==> t[label_end(t, i)] == DOT,
    decreases t.len() - i,
{
    if i < t.len() && t[i] != DOT {
        lemma_label_end(t, i + 1);
    }
}

/// A run of 64 octets without a dot lies before the dot that ends a text:
/// the text has a long label exactly if its labels have one.
pub proof fn lemma_long_label_canonical(t: Seq<u8>)
    ensures
        has_long_label(t) == has_long_label(canonical(t)),
{
    let c = canonical(t);
    if has_long_label(t) {
        let i = choose|i: int| long_run_at(t, i);
        if c.len() < t.len() && i + 64 == t.len() {
            assert(t[t.len() - 1] == DOT);
        }
        assert(long_run_at(c, i)) by {
            assert forall|k: int| i <= k < i + 64 implies c[k] != DOT by {
                assert(t[k] != DOT);
            }
        }
    }
    if has_long_label(c) {
        let i = choose|i: int| long_run_at(c, i);
        assert(long_run_at(t, i)) by {
            assert forall|k: int| i <= k < i + 64 implies t[k] != DOT by {
                assert(c[k] != DOT);
            }
        }
    }
}

/// Labels without fault have no dot at their end: they are a sound name.
pub proof fn lemma_sound_text_is_sound_name(t: Seq<u8>)
    requires
        labels_fault(t) is None,
    ensures
        sound_name(t),
{
}

/// A label of 1 to 63 octets without a dot, in front of labels without
/// fault, gives labels without fault, as long as they fit 253 octets.
pub proof fn lemma_label_in_front(label: Seq<u8>, rest: Seq<u8>)
    requires
        1 <= label.len() <= MAX_LABEL,
        no_dot(label, 0, label.len() as int),
        labels_fault(rest) is None,
        rest.len() > 0,
        label.len() + 1 + rest.len() <= MAX_TEXT,
    ensures
        labels_fault(label + seq![DOT] + rest) is None,
{
    let n = label.len() as int;
    let whole = label + seq![DOT] + rest;
    assert(whole[n] == DOT);
    assert forall|i: int| !long_run_at(whole, i) by {
        if long_run_at(whole, i) {
            if i <= n {
                assert(whole[n] != DOT);
            } else {
                assert(long_run_at(rest, i - n - 1)) by {
                    assert forall|k: int| i - n - 1 <= k < i - n - 1 + 64 implies rest[k]
                        != DOT by {
                        assert(whole[k + n + 1] != DOT);
                    }
                }
            }
        }
    }
    assert(whole[0] == label[0]);
    assert(whole[whole.len() - 1] == rest[rest.len() - 1]);
    assert forall|i: int| !double_dot_at(whole, i) by {
        if double_dot_at(whole, i) {
            if i < n {
                assert(whole[i] == label[i]);
            } else if i == n {
                assert(whole[n + 1] == rest[0]);
            } else {
                assert(whole[i] == rest[i - n - 1]);
                assert(whole[i + 1] == rest[i - n]);
                assert(double_dot_at(rest, i - n - 1));
            }
        }
    }
}

/// A single label of 1 to 63 octets without a dot is labels without fault.
pub proof fn lemma_single_label(label: Seq<u8>)
    requires
        1 <= label.len() <= MAX_LABEL,
        no_dot(label, 0, label.len() as int),
    ensures
        labels_fault(label) is None,
{
    assert forall|i: int| !long_run_at(label, i) by {}
    assert forall|i: int| !double_dot_at(label, i) by {}
}

/// In labels without fault, the label at a label start has 1 to 63 octets,
/// and what follows its dot is a label start again.
pub proof fn lemma_label_of_sound_name(t: Seq<u8>, s: int)
    requires
        labels_fault(t) is None,
        !is_root(t),
        is_label_start(t, s),
    ensures
        s + 1 <= label_end(t, s) <= s + 63,
        label_end(t, s) <= t.len() <= MAX_TEXT,
        label_end(t, s) < t.len() ==> is_label_start(t, label_end(t, s) + 1),
{
    lemma_label_end(t, s);
    let e = label_end(t, s);
    if e == s {
        // a dot at a label start is an empty label
        if s > 0 {
            assert(double_dot_at(t, s - 1));
        }
    }
    if e >= s + 64 {
        assert(long_run_at(t, s));
    }
    if e < t.len() {
        assert(t[e] == DOT);
        assert(e != t.len() - 1);
    }
}

/// Whether some label of `text` has more than 63 octets.
pub fn long_label(text: &[u8]) -> (r: bool)
    ensures
        r == has_long_label(text@),
{
    let mut run: usize = 0;
    let mut i: usize = 0;
    while i < text.len()
        invariant
            i <= text@.len(),
            run <= MAX_LABEL,
            run <= i,
            no_dot(text@, i - run, i as int),
            run < i ==> text@[i - run - 1] == DOT,
            forall|j: int| 0 <= j && j + 64 <= i ==> !long_run_at(text@, j),
        decreases text.len() - i,
    {
        if text[i] == DOT {
            run = 0;
        } else {
            run = run + 1;
            if run > MAX_LABEL {
                assert(long_run_at(text@, i + 1 - 64));
                return true;
            }
        }
        i = i + 1;
        assert forall|j: int| 0 <= j && j + 64 <= i implies !long_run_at(text@, j) by {
            if j + 64 == i {
                if run == 0 {
                    assert(text@[i - 1] == DOT);
                } else {
                    assert(text@[i - run - 1] == DOT);
                }
            }
        }
    }
    assert forall|j: int| !long_run_at(text@, j) by {}
    false
}

/// Whether a dot stands in `text`.
pub fn holds_dot(text: &[u8]) -> (r: bool)
    ensures
        r == !no_dot(text@, 0, text@.len() as int),
{
    let mut i: usize = 0;
    while i < text.len()
        invariant
            i <= text@.len(),
            no_dot(text@, 0, i as int),
        decreases text.len() - i,
    {
        if text[i] == DOT {
            return true;
        }
        i = i + 1;
    }
    false
}

/// Whether some label of `text` is empty.
pub fn empty_label(text: &[u8]) -> (r: bool)
    ensures
        r == has_empty_label(text@),
{
    let n: usize = text.len();
    if n == 0 || text[0] == DOT || text[n - 1] == DOT {
        return true;
    }
    let mut i: usize = 0;
    while i + 1 < n
        invariant
            n == text@.len(),
            i < n,
            forall|j: int| 0 <= j < i ==> !double_dot_at(text@, j),
        decreases n - i,
    {
        if text[i] == DOT && text[i + 1] == DOT {
            assert(double_dot_at(text@, i as int));
            return true;
        }
        i = i + 1;
    }
    assert forall|j: int| !double_dot_at(text@, j) by {}
    false
}

/// The labels of a name as text: `text` without the dot that may end it.
pub fn canonical_text(text: &[u8]) -> (r: &[u8])
    ensures
        r@ == canonical(text@),
{
    let n: usize = text.len();
    if n > 0 && text[n - 1] == DOT {
        let r = vstd::slice::slice_subrange(text, 0, n - 1);
        assert(r@ =~= text@.drop_last());
        r
    } else {
        text
    }
}

/// Why `text` cannot be written as a name, if it cannot.
pub fn check_name(text: &[u8]) -> (r: Option<WireError>)
    ensures
        r == name_fault(text@),
{
    let labels = canonical_text(text);
    if long_label(labels) {
        Some(WireError::LabelTooLong)
    } else if labels.len() == 0 {
        None
    } else if empty_label(labels) {
        Some(WireError::EmptyLabel)
    } else if labels.len() > MAX_TEXT {
        Some(WireError::NameTooLong)
    } else {
        None
    }
}

/// The end of the label that starts at `s`.
pub fn find_label_end(text: &[u8], s: usize) -> (e: usize)
    requires
        s <= text@.len(),
    ensures
        e == label_end(text@, s as int),
        s <= e <= text@.len(),
{
    let mut e: usize = s;
    while e < text.len() && text[e] != DOT
        invariant
            s <= e <= text@.len(),
            label_end(text@, s as int) == label_end(text@, e as int),
        decreases text.len() - e,
    {
        e = e + 1;
    }
    e
}

} // verus!
