//! Octets and big-endian integers as they stand on the wire, and the faults
//! that the codec reports.

use vstd::prelude::*;

verus! {

/// What the codec refuses, on the way in or on the way out.
#[derive(Debug, Clone, Copy, PartialEq, Eq, Structural)]
pub enum WireError {
    /// The input ends before the item does.
    Truncated,
    /// A compression pointer names an offset at which no name was read: one
    /// that was never recorded, or one behind the pointer.
    InvalidPointer,
    /// A compression pointer points at itself or into the labels of the
    /// name that it ends.
    PointerLoop,
    /// The octets of a label are not valid UTF-8, or a dot stands among
    /// them.
    InvalidLabel,
    /// A label has more than 63 octets.
    LabelTooLong,
    /// A name has an empty label: it begins with a dot, or two dots stand
    /// side by side in it.
    EmptyLabel,
    /// A name takes more than 255 octets on the wire.
    NameTooLong,
    /// A text payload has more than 255 octets.
    TextTooLong,
    /// An opaque payload has more than 65535 octets.
    RDataTooLong,
}

/// The two octets of a 16-bit value, most significant first.
pub open spec fn be16(v: u16) -> Seq<u8> {
    seq![(v / 256) as u8, (v % 256) as u8]
}

/// The four octets of a 32-bit value, most significant first.
pub open spec fn be32(v: u32) -> Seq<u8> {
    seq![
        (v / 16777216) as u8,
        (v / 65536 % 256) as u8,
        (v / 256 % 256) as u8,
        (v % 256) as u8,
    ]
}

/// The 16-bit value that stands at `p` in `buf`, most significant octet first.
pub open spec fn u16_at(buf: Seq<u8>, p: int) -> u16 {
    (buf[p] as int * 256 + buf[p + 1] as int) as u16
}

/// The 32-bit value that stands at `p` in `buf`, most significant octet first.
pub open spec fn u32_at(buf: Seq<u8>, p: int) -> u32 {
    (buf[p] as int * 16777216 + buf[p + 1] as int * 65536 + buf[p + 2] as int * 256 + buf[p + 3] as int) as u32
}

/// The octets of what may be a run of octets.
pub open spec fn opt_octets(o: Option<Vec<u8>>) -> Option<Seq<u8>> {
    match o {
        Some(b) => Some(b@),
        None => None,
    }
}

/// A 16-bit value is read back from its two octets, wherever they stand.
pub proof fn lemma_u16_roundtrip(buf: Seq<u8>, p: int, v: u16)
    requires
        0 <= p,
        p + 2 <= buf.len(),
        buf.subrange(p, p + 2) == be16(v),
    ensures
        u16_at(buf, p) == v,
{
    let s = buf.subrange(p, p + 2);
    assert(buf[p] == s[0]);
    assert(buf[p + 1] == s[1]);
}

/// A 32-bit value is read back from its four octets, wherever they stand.
pub proof fn lemma_u32_roundtrip(buf: Seq<u8>, p: int, v: u32)
    requires
        0 <= p,
        p + 4 <= buf.len(),
        buf.subrange(p, p + 4) == be32(v),
    ensures
        u32_at(buf, p) == v,
{
    let s = buf.subrange(p, p + 4);
    assert(buf[p] == s[0]);
    assert(buf[p + 1] == s[1]);
    assert(buf[p + 2] == s[2]);
    assert(buf[p + 3] == s[3]);
}

/// Appends a 16-bit value to `out`, most significant octet first.
pub fn push_u16(out: &mut Vec<u8>, v: u16)
    ensures
        final(out)@ == old(out)@ + be16(v),
{
    out.push((v / 256) as u8);
    out.push((v % 256) as u8);
}

/// Appends a 32-bit value to `out`, most significant octet first.
pub fn push_u32(out: &mut Vec<u8>, v: u32)
    ensures
        final(out)@ == old(out)@ + be32(v),
{
    out.push((v / 16777216) as u8);
    out.push((v / 65536 % 256) as u8);
    out.push((v / 256 % 256) as u8);
    out.push((v % 256) as u8);
}

/// Appends the octets `src[from..to]` to `out`.
pub fn push_range(out: &mut Vec<u8>, src: &[u8], from: usize, to: usize)
    requires
        from <= to <= src@.len(),
    ensures
        final(out)@ == old(out)@ + src@.subrange(from as int, to as int),
{
    let mut i: usize = from;
    while i < to
        invariant
            from <= i <= to <= src@.len(),
            out@ == old(out)@ + src@.subrange(from as int, i as int),
        decreases to - i,
    {
        out.push(src[i]);
        i = i + 1;
    }
}

/// A copy of the octets `src[from..to]`.
pub fn copy_range(src: &[u8], from: usize, to: usize) -> (r: Vec<u8>)
    requires
        from <= to <= src@.len(),
    ensures
        r@ == src@.subrange(from as int, to as int),
{
    let mut r: Vec<u8> = Vec::new();
    push_range(&mut r, src, from, to);
    r
}

/// Whether two runs of octets are the same.
pub fn same_octets(a: &[u8], b: &[u8]) -> (r: bool)
    ensures
        r == (a@ == b@),
{
    if a.len() != b.len() {
        return false;
    }
    let mut i: usize = 0;
    while i < a.len()
        invariant
            i <= a@.len(),
            a@.len() == b@.len(),
            forall|k: int| 0 <= k < i ==> a@[k] == b@[k],
        decreases a.len() - i,
    {
        if a[i] != b[i] {
            return false;
        }
        i = i + 1;
    }
    assert(a@ =~= b@);
    true
}

} // verus!
