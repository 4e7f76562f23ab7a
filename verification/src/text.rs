//! Text as UTF-8 octets.

use vstd::prelude::*;
use vstd::string::StringExecFns;
use vstd::utf8::{
    encode_utf8, is_char_boundary_iff_is_leading_byte, is_char_boundary_start_end_of_seq,
    valid_utf8, valid_utf8_split,
};
use crate::wire::same_octets;

verus! {

/// `std::str::from_utf8`: the octets as text where they are valid UTF-8, and
/// nothing where they are not. The text has exactly these octets.
#[verifier::external_body]
pub(crate) fn utf8_text<'a>(bytes: &'a [u8]) -> (r: Option<&'a str>)
    ensures
        r is Some <==> valid_utf8(bytes@),
        r is Some ==> encode_utf8(r->0@) == bytes@,
{
    std::str::from_utf8(bytes).ok()
}

/// The octets as an owned string, where they are valid UTF-8.
pub fn string_of(bytes: &[u8]) -> (r: Option<String>)
    ensures
        r is Some <==> valid_utf8(bytes@),
        r is Some ==> encode_utf8(r->0@) == bytes@,
{
    match utf8_text(bytes) {
        Some(s) => Some(s.to_owned()),
        None => None,
    }
}

/// A single octet below 128 is valid UTF-8.
pub proof fn lemma_ascii_octet_is_text(b: u8)
    requires
        b < 128,
    ensures
        valid_utf8(seq![b]),
{
    let s = seq![b];
    reveal_with_fuel(valid_utf8, 2);
    assert(vstd::utf8::pop_first_scalar(s) =~= Seq::<u8>::empty());
}

/// Whether two texts are the same.
pub fn same_text(a: &str, b: &str) -> (r: bool)
    ensures
        r == (a@ == b@),
{
    broadcast use vstd::utf8::encode_utf8_decode_utf8;

    let r = same_octets(a.as_bytes(), b.as_bytes());
    proof {
        if r {
            assert(vstd::utf8::decode_utf8(encode_utf8(a@)) == vstd::utf8::decode_utf8(
                encode_utf8(b@),
            ));
        }
    }
    r
}

/// One text behind another.
pub fn join_text(a: &str, b: &str) -> (r: String)
    ensures
        r@ == a@ + b@,
{
    let mut r = String::from_str(a);
    r.append(b);
    r
}

/// Whether the text begins with the octet `b`.
pub fn starts_with_octet(s: &str, b: u8) -> (r: bool)
    ensures
        r == (encode_utf8(s@).len() > 0 && encode_utf8(s@)[0] == b),
{
    let text = s.as_bytes();
    text.len() > 0 && text[0] == b
}

/// The octet is a decimal digit.
pub open spec fn is_digit(b: u8) -> bool {
    48 <= b <= 57
}

/// Every octet is a decimal digit.
pub open spec fn all_digits(d: Seq<u8>) -> bool {
    forall|i: int| 0 <= i < d.len() ==> is_digit(#[trigger] d[i])
}

/// The number that decimal digits stand for.
pub open spec fn digits_value(d: Seq<u8>) -> nat
    decreases d.len(),
{
    if d.len() == 0 {
        0
    } else {
        digits_value(d.drop_last()) * 10 + (d.last() - 48) as nat
    }
}

/// The digits of a decimal text: the text without the plus sign that may
/// stand in front.
pub open spec fn digits_of(text: Seq<u8>) -> Seq<u8> {
    if text.len() > 0 && text[0] == 43 {
        text.skip(1)
    } else {
        text
    }
}

/// The number up to `max` that a decimal text stands for: an optional plus
/// sign and at least one digit, nothing else. Nothing where the text is of
/// another form or the number is above `max`.
pub open spec fn decimal(text: Seq<u8>, max: nat) -> Option<nat> {
    let d = digits_of(text);
    if d.len() == 0 || !all_digits(d) || digits_value(d) > max {
        None
    } else {
        Some(digits_value(d))
    }
}

/// More digits do not stand for less.
proof fn lemma_digits_grow(d: Seq<u8>, k: int)
    requires
        0 <= k <= d.len(),
        all_digits(d),
    ensures
        digits_value(d.take(k)) <= digits_value(d),
    decreases d.len() - k,
{
    if k < d.len() {
        lemma_digits_grow(d, k + 1);
        assert(d.take(k + 1).drop_last() =~= d.take(k));
    } else {
        assert(d.take(k) =~= d);
    }
}

/// The number up to `max` that a decimal text stands for.
pub fn parse_decimal(text: &[u8], max: u32) -> (r: Option<u32>)
    ensures
        match decimal(text@, max as nat) {
            Some(v) => r == Some(v as u32),
            None => r is None,
        },
{
    let start: usize = if text.len() > 0 && text[0] == 43 {
        1
    } else {
        0
    };
    let ghost d = digits_of(text@);
    assert(d == text@.skip(start as int)) by {
        assert(text@.skip(0) =~= text@);
    }
    if text.len() == start {
        return None;
    }
    assert(d.take(0) =~= Seq::<u8>::empty());
    let mut acc: u64 = 0;
    let mut i: usize = start;
    while i < text.len()
        invariant
            start <= i <= text@.len(),
            d == digits_of(text@),
            d == text@.skip(start as int),
            all_digits(d.take(i - start)),
            acc == digits_value(d.take(i - start)),
            acc <= max,
        decreases text.len() - i,
    {
        let b: u8 = text[i];
        assert(d[i - start] == b);
        if b < 48 || b > 57 {
            assert(!is_digit(d[i - start]));
            return None;
        }
        let next: u64 = acc * 10 + (b - 48) as u64;
        proof {
            assert(d.take(i + 1 - start).drop_last() =~= d.take(i - start));
            assert(d.take(i + 1 - start).last() == b);
            assert(digits_value(d.take(i + 1 - start)) == next);
            assert(all_digits(d.take(i + 1 - start))) by {
                assert forall|k: int| 0 <= k < i + 1 - start implies is_digit(
                    #[trigger] d.take(i + 1 - start)[k],
                ) by {
                    if k < i - start {
                        assert(d.take(i - start)[k] == d[k]);
                    }
                }
            }
        }
        if next > max as u64 {
            proof {
                if all_digits(d) {
                    lemma_digits_grow(d, i + 1 - start);
                }
            }
            return None;
        }
        acc = next;
        i = i + 1;
    }
    assert(d.take(i - start) =~= d);
    Some(acc as u32)
}

/// The text without the dots at its end.
pub open spec fn without_final_dots(text: Seq<u8>) -> Seq<u8>
    decreases text.len(),
{
    if text.len() > 0 && text.last() == 46 {
        without_final_dots(text.drop_last())
    } else {
        text
    }
}

/// The text without the dots at its end, as a string of its own.
pub fn strip_final_dots(s: &str) -> (r: String)
    ensures
        encode_utf8(r@) == without_final_dots(encode_utf8(s@)),
{
    broadcast use vstd::utf8::encode_utf8_valid_utf8;

    let text = s.as_bytes();
    let mut n: usize = text.len();
    assert(text@.take(n as int) =~= text@);
    while n > 0 && text[n - 1] == 46
        invariant
            n <= text@.len(),
            n < text@.len() ==> text@[n as int] == 46,
            without_final_dots(text@) == without_final_dots(text@.take(n as int)),
        decreases n,
    {
        assert(text@.take(n as int).drop_last() =~= text@.take(n - 1));
        n = n - 1;
    }
    proof {
        assert(text@.take(n as int) =~= text@.subrange(0, n as int));
        assert(valid_utf8(text@));
        if n < text@.len() {
            is_char_boundary_iff_is_leading_byte(text@, n as int);
        } else {
            is_char_boundary_start_end_of_seq(text@);
        }
        valid_utf8_split(text@, n as int);
    }
    match string_of(vstd::slice::slice_subrange(text, 0, n)) {
        Some(r) => r,
        None => vstd::pervasive::unreached(),
    }
}

} // verus!
