use dns_core::compression::{Reader, Writer};
use dns_core::question::Question;
use dns_core::wire::WireError;

#[test]
fn question_example_com_wire_bytes() {
    let q = Question { qname: "example.com".to_string(), qtype: 1, qclass: 1 };
    let mut w = Writer::new();
    q.write(&mut w).unwrap();
    let bytes = w.into_bytes();
    assert_eq!(
        bytes,
        vec![
            0x07, 0x65, 0x78, 0x61, 0x6d, 0x70, 0x6c, 0x65, 0x03, 0x63, 0x6f, 0x6d, 0x00, 0x00,
            0x01, 0x00, 0x01
        ]
    );
    let mut r = Reader::new(&bytes);
    let back = Question::read(&mut r).unwrap();
    assert_eq!(back, q);
    assert_eq!(r.position(), bytes.len());
}

#[test]
fn question_fields_are_big_endian() {
    let q = Question { qname: "a".to_string(), qtype: 0x0102, qclass: 0xFFFE };
    let mut w = Writer::new();
    q.write(&mut w).unwrap();
    assert_eq!(w.into_bytes(), vec![1, b'a', 0, 0x01, 0x02, 0xFF, 0xFE]);
}

#[test]
fn question_with_faulty_name_is_not_written() {
    let q = Question { qname: "a..b".to_string(), qtype: 1, qclass: 1 };
    let mut w = Writer::new();
    w.put_u8(7);
    assert_eq!(q.write(&mut w), Err(WireError::EmptyLabel));
    assert_eq!(w.into_bytes(), vec![7]);
}

#[test]
fn question_without_its_fields_is_truncated() {
    let bytes = [1, b'a', 0, 0, 1, 0];
    let mut r = Reader::new(&bytes);
    assert_eq!(Question::read(&mut r), Err(WireError::Truncated));
}

#[test]
fn question_clone_is_equal() {
    let q = Question { qname: "example.com".to_string(), qtype: 28, qclass: 1 };
    assert_eq!(q.clone(), q);
}
