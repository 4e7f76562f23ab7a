use dns_core::name::{canonical_text, check_name, empty_label, find_label_end, long_label};
use dns_core::text::{
    join_text, parse_decimal, same_text, starts_with_octet, string_of, strip_final_dots,
};
use dns_core::wire::{copy_range, push_range, push_u16, push_u32, same_octets};
use dns_core::{compress_name, write_qname, Reader, WireError, Writer};

#[test]
fn integers_are_written_most_significant_octet_first() {
    let mut out = vec![9];
    push_u16(&mut out, 0x0102);
    push_u32(&mut out, 0xA1B2C3D4);
    push_u16(&mut out, 0xFFFF);
    push_u32(&mut out, 0);
    assert_eq!(out, vec![9, 1, 2, 0xA1, 0xB2, 0xC3, 0xD4, 0xFF, 0xFF, 0, 0, 0, 0]);
}

#[test]
fn ranges_are_copied_as_they_are() {
    let src = [1u8, 2, 3, 4, 5];
    let mut out = vec![0];
    push_range(&mut out, &src, 1, 4);
    push_range(&mut out, &src, 2, 2);
    assert_eq!(out, vec![0, 2, 3, 4]);
    assert_eq!(copy_range(&src, 0, 5), src.to_vec());
    assert_eq!(copy_range(&src, 5, 5), Vec::<u8>::new());
}

#[test]
fn octets_are_compared_one_by_one() {
    assert!(same_octets(&[], &[]));
    assert!(same_octets(&[1, 2], &[1, 2]));
    assert!(!same_octets(&[1, 2], &[1, 3]));
    assert!(!same_octets(&[1, 2], &[1, 2, 3]));
    assert!(!same_octets(&[1, 2, 3], &[1, 2]));
}

#[test]
fn writer_puts_and_fills() {
    let mut w = Writer::new();
    assert_eq!(w.len(), 0);
    w.put_u8(7);
    w.put_u16(0x0102);
    let at = w.reserve_u16();
    assert_eq!(at, 3);
    w.put_u32(0x0A0B0C0D);
    w.put_bytes(&[1, 2]);
    assert_eq!(w.as_bytes(), &[7, 1, 2, 0, 0, 0x0A, 0x0B, 0x0C, 0x0D, 1, 2]);
    w.fill_u16(at, 0xBEEF);
    assert_eq!(w.len(), 11);
    assert_eq!(w.into_bytes(), vec![7, 1, 2, 0xBE, 0xEF, 0x0A, 0x0B, 0x0C, 0x0D, 1, 2]);
}

#[test]
fn reader_reads_integers_and_stops_at_its_bounds() {
    let bytes = [7, 1, 2, 0xA1, 0xB2, 0xC3, 0xD4, 5, 6, 7];
    let mut r = Reader::new(&bytes);
    assert_eq!(r.remaining(), 10);
    assert_eq!(r.read_u8(), Ok(7));
    assert_eq!(r.read_u16(), Ok(0x0102));
    assert_eq!(r.read_u32(), Ok(0xA1B2C3D4));
    assert_eq!((r.position(), r.remaining()), (7, 3));
    assert_eq!(r.read_u32(), Err(WireError::Truncated));
    assert_eq!(r.read_bytes(4), Err(WireError::Truncated));
    assert_eq!(r.position(), 7);
    assert_eq!(r.read_bytes(2), Ok(vec![5, 6]));
    assert_eq!(r.read_u16(), Err(WireError::Truncated));
    assert_eq!(r.read_u8(), Ok(7));
    assert_eq!(r.read_u8(), Err(WireError::Truncated));
    assert_eq!(r.read_bytes(0), Ok(vec![]));
}

#[test]
fn narrowed_reader_stops_early_and_leaves_at_the_end_of_its_bounds() {
    let bytes = [1, 2, 3, 4, 5, 6];
    let mut r = Reader::new(&bytes);
    r.read_u8().unwrap();
    let outer = r.narrow(3);
    assert_eq!(outer, 6);
    assert_eq!(r.remaining(), 3);
    assert_eq!(r.read_u16(), Ok(0x0203));
    assert_eq!(r.read_u16(), Err(WireError::Truncated));
    r.leave(outer);
    assert_eq!((r.position(), r.remaining()), (4, 2));
    assert_eq!(r.read_u16(), Ok(0x0506));
}

#[test]
fn label_checks() {
    assert!(!long_label(&[b'a'; 63]));
    assert!(long_label(&[b'a'; 64]));
    let mut two = vec![b'a'; 63];
    two.push(b'.');
    two.extend(vec![b'b'; 63]);
    assert!(!long_label(&two));
    two.push(b'b');
    assert!(long_label(&two));
    assert!(empty_label(b""));
    assert!(empty_label(b"."));
    assert!(empty_label(b"a..b"));
    assert!(empty_label(b".a"));
    assert!(empty_label(b"a."));
    assert!(!empty_label(b"a.b"));
    assert_eq!(canonical_text(b"a.b."), b"a.b");
    assert_eq!(canonical_text(b"a.b"), b"a.b");
    assert_eq!(canonical_text(b"a.."), b"a.");
    assert_eq!(canonical_text(b"."), b"");
    assert_eq!(canonical_text(b""), b"");
    assert_eq!(find_label_end(b"ab.cd", 0), 2);
    assert_eq!(find_label_end(b"ab.cd", 2), 2);
    assert_eq!(find_label_end(b"ab.cd", 3), 5);
    assert_eq!(find_label_end(b"ab.cd", 5), 5);
}

#[test]
fn long_label_is_reported_before_other_faults() {
    let long = "x".repeat(64);
    assert_eq!(check_name(format!("a..{}", long).as_bytes()), Some(WireError::LabelTooLong));
    let huge = format!("{}.{}", "y".repeat(300), "z");
    assert_eq!(check_name(huge.as_bytes()), Some(WireError::LabelTooLong));
    // empty label before length
    let many = "a..".repeat(100);
    assert_eq!(check_name(many.as_bytes()), Some(WireError::EmptyLabel));
    let many = format!("{}a", "a.".repeat(130));
    assert_eq!(check_name(many.as_bytes()), Some(WireError::NameTooLong));
    assert_eq!(check_name("a.".repeat(130).as_bytes()), Some(WireError::NameTooLong));
    assert_eq!(check_name("a.".repeat(127).as_bytes()), None);
    assert_eq!(check_name(b"example.com"), None);
    assert_eq!(check_name(b"example.com."), None);
    assert_eq!(check_name(b"example.com.."), Some(WireError::EmptyLabel));
    assert_eq!(check_name(b""), None);
    assert_eq!(check_name(b"."), None);
    assert_eq!(check_name(b".."), Some(WireError::EmptyLabel));
}

#[test]
fn name_in_full_has_no_pointers() {
    let mut out = vec![0xEE];
    write_qname(&mut out, "example.com").unwrap();
    write_qname(&mut out, "example.com").unwrap();
    write_qname(&mut out, ".").unwrap();
    let one = [7, b'e', b'x', b'a', b'm', b'p', b'l', b'e', 3, b'c', b'o', b'm', 0];
    let mut expected = vec![0xEE];
    expected.extend_from_slice(&one);
    expected.extend_from_slice(&one);
    expected.push(0);
    assert_eq!(out, expected);
    assert_eq!(write_qname(&mut out, "a..b"), Err(WireError::EmptyLabel));
    assert_eq!(out, expected);
}

#[test]
fn written_names_are_never_longer_than_in_full() {
    let names = ["a.b.c", "b.c", "x.y", "c", "", "a.b.c", "q.a.b.c", "y", "x.y"];
    let mut w = Writer::new();
    let mut reused = 0;
    for n in names {
        let mut full = Vec::new();
        write_qname(&mut full, n).unwrap();
        let at = w.len();
        compress_name(&mut w, n).unwrap();
        let took = w.len() - at;
        let last = w.as_bytes()[w.len() - 1];
        let points = took >= 2 && w.as_bytes()[w.len() - 2] >= 0xC0;
        if points {
            assert!(took < full.len(), "{}", n);
            reused += 1;
        } else {
            assert_eq!(&w.as_bytes()[at..], &full[..], "{}", n);
            assert_eq!(last, 0);
        }
    }
    assert_eq!(reused, 6);
}

#[test]
fn text_helpers() {
    assert_eq!(string_of(b"caf\xC3\xA9"), Some("café".to_string()));
    assert_eq!(string_of(b""), Some(String::new()));
    assert_eq!(string_of(&[0xC3]), None);
    assert_eq!(string_of(&[0xFF, b'a']), None);
    assert!(same_text("abc", "abc") && !same_text("abc", "abd") && !same_text("abc", "ab"));
    assert_eq!(join_text("ab", "çd"), "abçd");
    assert!(starts_with_octet(";x", 59) && !starts_with_octet("x;", 59));
    assert!(!starts_with_octet("", 59));
    assert_eq!(strip_final_dots("example.com."), "example.com");
    assert_eq!(strip_final_dots("a.b..."), "a.b");
    assert_eq!(strip_final_dots("..."), "");
    assert_eq!(strip_final_dots("é."), "é");
    assert_eq!(strip_final_dots("a.b"), "a.b");
}

#[test]
fn decimal_numbers() {
    assert_eq!(parse_decimal(b"0", 10), Some(0));
    assert_eq!(parse_decimal(b"10", 10), Some(10));
    assert_eq!(parse_decimal(b"11", 10), None);
    assert_eq!(parse_decimal(b"+7", 10), Some(7));
    assert_eq!(parse_decimal(b"0007", 10), Some(7));
    assert_eq!(parse_decimal(b"4294967295", u32::MAX), Some(4294967295));
    assert_eq!(parse_decimal(b"4294967296", u32::MAX), None);
    assert_eq!(parse_decimal(b"99999999999999999999999", u32::MAX), None);
    for bad in [&b""[..], b"+", b"-1", b"++1", b"1+", b" 1", b"1 ", b"0x10", b"1_000", b"12a"] {
        assert_eq!(parse_decimal(bad, u32::MAX), None, "{:?}", bad);
        // as the standard library reads numbers
        assert!(std::str::from_utf8(bad).unwrap().parse::<u32>().is_err());
    }
    for good in ["0", "+0", "007", "65535", "+4294967295"] {
        assert_eq!(
            parse_decimal(good.as_bytes(), u32::MAX),
            Some(good.parse::<u32>().unwrap())
        );
    }
}
