use dns_core::compression::{Reader, Writer};
use dns_core::record::{RData, Record, RecordError};
use dns_core::wire::WireError;

fn record(name: &str, rtype: u16, rdata: RData) -> Record {
    Record { name: name.to_string(), rtype, rclass: 1, ttl: 0x0102_0304, rdata }
}

fn written(rec: &Record) -> Vec<u8> {
    let mut w = Writer::new();
    rec.write(&mut w).unwrap();
    w.into_bytes()
}

fn read_back(rec: &Record) -> Record {
    let bytes = written(rec);
    let mut r = Reader::new(&bytes);
    let back = Record::read(&mut r).unwrap();
    assert_eq!(r.position(), bytes.len());
    back
}

#[test]
fn address_record_wire_bytes() {
    let rec = record("a.b", 1, RData::A([192, 0, 2, 1]));
    assert_eq!(
        written(&rec),
        vec![1, b'a', 1, b'b', 0, 0, 1, 0, 1, 1, 2, 3, 4, 0, 4, 192, 0, 2, 1]
    );
}

#[test]
fn every_kind_of_payload_is_read_back() {
    let v6 = [0x20, 0x01, 0x0d, 0xb8, 0, 0, 0, 0, 0, 0, 0, 0, 0, 0, 0, 1];
    let records = vec![
        record("host.example.com", 1, RData::A([10, 0, 0, 1])),
        record("host.example.com", 28, RData::AAAA(v6)),
        record("www.example.com", 5, RData::CNAME("host.example.com".to_string())),
        record(
            "example.com",
            15,
            RData::MX { preference: 10, exchange: "mail.example.com".to_string() },
        ),
        record("example.com", 2, RData::NS("ns1.example.net".to_string())),
        record(
            "example.com",
            6,
            RData::SOA {
                mname: "ns1.example.com".to_string(),
                rname: "hostmaster.example.com".to_string(),
                serial: 2024010101,
                refresh: 7200,
                retry: 3600,
                expire: 1209600,
                minimum: 4294967295,
            },
        ),
        record("example.com", 16, RData::TXT("v=spf1 -all".to_string())),
        record("example.com", 16, RData::TXT(String::new())),
        record("example.com", 99, RData::Raw(vec![1, 2, 3, 0xC0, 0x00])),
        record("", 41, RData::Raw(vec![])),
    ];
    for rec in &records {
        assert_eq!(&read_back(rec), rec);
    }
}

#[test]
fn payload_length_is_that_of_the_payload() {
    let rec = record(
        "example.com",
        15,
        RData::MX { preference: 0x0A0B, exchange: "mail.example.com".to_string() },
    );
    let bytes = written(&rec);
    // owner 13, fixed 8, length 2, preference 2, "mail" label 5, pointer 2
    assert_eq!(bytes.len(), 13 + 8 + 2 + 2 + 5 + 2);
    assert_eq!(&bytes[21..23], &[0, 9]);
    assert_eq!(&bytes[23..], &[0x0A, 0x0B, 4, b'm', b'a', b'i', b'l', 0xC0, 0x00]);
}

#[test]
fn text_stands_behind_its_length() {
    let rec = record("t", 16, RData::TXT("hi".to_string()));
    let bytes = written(&rec);
    assert_eq!(&bytes[11..], &[0, 3, 2, b'h', b'i']);
}

#[test]
fn names_in_payloads_use_offsets_of_the_whole_message() {
    let mut w = Writer::new();
    w.put_bytes(&[0u8; 12]);
    let first = record("example.com", 2, RData::NS("ns.example.com".to_string()));
    let second = record("www.example.com", 5, RData::CNAME("ns.example.com".to_string()));
    first.write(&mut w).unwrap();
    let at = w.len();
    second.write(&mut w).unwrap();
    let bytes = w.into_bytes();
    // first: owner at 12..25, fixed 25..33, length 33..35, payload "ns" + pointer to 12 at 35
    assert_eq!(&bytes[33..40], &[0, 5, 2, b'n', b's', 0xC0, 12]);
    // second: "www" + pointer to 12, fixed, length 2, pointer to 35
    assert_eq!(&bytes[at..at + 6], &[3, b'w', b'w', b'w', 0xC0, 12]);
    assert_eq!(&bytes[at + 14..], &[0, 2, 0xC0, 35]);
    let mut r = Reader::new(&bytes);
    r.read_bytes(12).unwrap();
    assert_eq!(Record::read(&mut r).unwrap(), first);
    assert_eq!(Record::read(&mut r).unwrap(), second);
    assert_eq!(r.position(), bytes.len());
}

fn raw_record(rtype: u16, rdata: &[u8]) -> Vec<u8> {
    let mut b = vec![1, b'x', 0, (rtype >> 8) as u8, rtype as u8, 0, 1, 0, 0, 0, 60];
    b.push((rdata.len() >> 8) as u8);
    b.push(rdata.len() as u8);
    b.extend_from_slice(rdata);
    b
}

fn read_err(bytes: &[u8]) -> RecordError {
    let mut r = Reader::new(bytes);
    Record::read(&mut r).unwrap_err()
}

#[test]
fn address_of_wrong_length_is_refused() {
    assert_eq!(read_err(&raw_record(1, &[1, 2, 3])), RecordError::InvalidRDataLength(1));
    assert_eq!(read_err(&raw_record(1, &[1, 2, 3, 4, 5])), RecordError::InvalidRDataLength(1));
    assert_eq!(read_err(&raw_record(28, &[0; 4])), RecordError::InvalidRDataLength(28));
    assert_eq!(read_err(&raw_record(28, &[0; 17])), RecordError::InvalidRDataLength(28));
}

#[test]
fn mail_exchange_of_less_than_three_octets_is_refused() {
    assert_eq!(read_err(&raw_record(15, &[0, 10])), RecordError::InvalidRDataLength(15));
}

#[test]
fn text_that_is_no_utf8_is_refused() {
    assert_eq!(read_err(&raw_record(16, &[2, 0xFF, 0xFE])), RecordError::InvalidUTF8);
}

#[test]
fn text_whose_length_octet_disagrees_is_refused() {
    assert_eq!(read_err(&raw_record(16, &[])), RecordError::InvalidRDataLength(16));
    assert_eq!(read_err(&raw_record(16, &[3, b'a', b'b'])), RecordError::InvalidRDataLength(16));
    assert_eq!(read_err(&raw_record(16, &[1, b'a', b'b'])), RecordError::InvalidRDataLength(16));
}

#[test]
fn payload_that_ends_early_is_truncated() {
    let mut bytes = raw_record(99, &[1, 2, 3, 4]);
    bytes.truncate(bytes.len() - 1);
    assert_eq!(read_err(&bytes), RecordError::Wire(WireError::Truncated));
    // fixed fields cut short
    assert_eq!(read_err(&[1, b'x', 0, 0, 1, 0, 1]), RecordError::Wire(WireError::Truncated));
}

#[test]
fn name_in_payload_may_not_leave_the_payload() {
    // CNAME whose label claims more octets than the payload has
    let mut bytes = raw_record(5, &[3, b'a', b'b']);
    bytes.extend_from_slice(&[b'c', 0]);
    assert_eq!(read_err(&bytes), RecordError::Wire(WireError::Truncated));
}

#[test]
fn start_of_authority_without_its_numbers_is_truncated() {
    let bytes = raw_record(6, &[1, b'm', 0, 1, b'r', 0, 0, 0, 0, 1]);
    assert_eq!(read_err(&bytes), RecordError::Wire(WireError::Truncated));
}

#[test]
fn fault_of_a_name_in_a_payload_is_passed_on() {
    let bytes = raw_record(2, &[0xC0, 0x30]);
    assert_eq!(read_err(&bytes), RecordError::Wire(WireError::InvalidPointer));
    // the payload starts at offset 13: a pointer at itself
    let bytes = raw_record(2, &[0xC0, 13]);
    assert_eq!(read_err(&bytes), RecordError::Wire(WireError::PointerLoop));
    let bytes = raw_record(5, &[2, 0xFF, 0xFF, 0]);
    assert_eq!(read_err(&bytes), RecordError::Wire(WireError::InvalidLabel));
}

#[test]
fn what_a_name_leaves_of_its_payload_is_passed_over() {
    let mut bytes = raw_record(5, &[1, b'c', 0, 0xEE, 0xEE]);
    bytes.extend_from_slice(&raw_record(1, &[1, 2, 3, 4]));
    let mut r = Reader::new(&bytes);
    let first = Record::read(&mut r).unwrap();
    assert_eq!(first.rdata, RData::CNAME("c".to_string()));
    let second = Record::read(&mut r).unwrap();
    assert_eq!(second.rdata, RData::A([1, 2, 3, 4]));
    assert_eq!(second.name, "x");
}

#[test]
fn unknown_type_keeps_its_octets() {
    let bytes = raw_record(65280, &[9, 8, 7]);
    let mut r = Reader::new(&bytes);
    let rec = Record::read(&mut r).unwrap();
    assert_eq!(rec.rtype, 65280);
    assert_eq!(rec.ttl, 60);
    assert_eq!(rec.rdata, RData::Raw(vec![9, 8, 7]));
    assert_eq!(written(&rec), bytes);
}

#[test]
fn record_with_a_fault_is_not_written() {
    let cases = vec![
        (record("a..b", 1, RData::A([1, 2, 3, 4])), WireError::EmptyLabel),
        (record("ok", 5, RData::CNAME("x".repeat(64))), WireError::LabelTooLong),
        (record("ok", 16, RData::TXT("x".repeat(256))), WireError::TextTooLong),
        (record("ok", 99, RData::Raw(vec![0; 65536])), WireError::RDataTooLong),
        (
            record(
                "ok",
                6,
                RData::SOA {
                    mname: "m".to_string(),
                    rname: "r..".to_string(),
                    serial: 0,
                    refresh: 0,
                    retry: 0,
                    expire: 0,
                    minimum: 0,
                },
            ),
            WireError::EmptyLabel,
        ),
    ];
    for (rec, fault) in cases {
        let mut w = Writer::new();
        w.put_u8(1);
        assert_eq!(rec.fault(), Some(fault));
        assert_eq!(rec.write(&mut w), Err(fault));
        assert_eq!(w.into_bytes(), vec![1]);
    }
}

#[test]
fn longest_text_and_payload_are_written() {
    let rec = record("ok", 16, RData::TXT("x".repeat(255)));
    assert_eq!(read_back(&rec), rec);
    let rec = record("ok", 99, RData::Raw(vec![7; 65535]));
    assert_eq!(read_back(&rec), rec);
}

#[test]
fn record_clone_is_equal() {
    let rec = record(
        "example.com",
        15,
        RData::MX { preference: 10, exchange: "mail.example.com".to_string() },
    );
    assert_eq!(rec.clone(), rec);
}
