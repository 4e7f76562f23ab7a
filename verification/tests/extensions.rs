use dns_core::edns0::{EDNS0Error, EDNS0};
use dns_core::message::Message;
use dns_core::question::Question;
use dns_core::record::{RData, Record};
use dns_core::transport::{decode_message, encode_message};
use dns_core::tsig::TSIG;
use dns_core::wire::WireError;
use dns_core::zone_transfer::{handle_axfr_rf, handle_ixfr, ZoneTransferError};

fn opt(data: Vec<u8>) -> Record {
    Record { name: String::new(), rtype: 41, rclass: 1232, ttl: 0, rdata: RData::Raw(data) }
}

fn address(name: &str) -> Record {
    Record { name: name.to_string(), rtype: 1, rclass: 1, ttl: 60, rdata: RData::A([1, 2, 3, 4]) }
}

fn with_additionals(records: Vec<Record>) -> Message {
    let mut m = Message::new();
    m.header.arcount = records.len() as u16;
    m.additionals = records;
    m
}

#[test]
fn new_edns0_offers_4096_octets() {
    let e = EDNS0::new();
    assert_eq!(
        e,
        EDNS0 { version: 0, flags: 0, udp_size: 4096, ext_rcode: 0, edns0_data: vec![] }
    );
    assert_eq!(e.clone(), e);
}

#[test]
fn message_without_extension_record_has_none() {
    assert_eq!(EDNS0::parse(&Message::new()), Ok(None));
    assert_eq!(EDNS0::parse(&with_additionals(vec![address("a"), address("b")])), Ok(None));
}

#[test]
fn extension_record_is_read_from_its_payload() {
    let m = with_additionals(vec![
        address("a"),
        opt(vec![1, 0x80, 0x00, 0x04, 0xD0, 3, 0xAA, 0xBB]),
        opt(vec![9, 9, 9, 9, 9, 9]),
    ]);
    assert_eq!(
        EDNS0::parse(&m),
        Ok(Some(EDNS0 {
            version: 1,
            flags: 0x8000,
            udp_size: 1232,
            ext_rcode: 3,
            edns0_data: vec![0xAA, 0xBB],
        }))
    );
}

#[test]
fn payload_of_exactly_the_fixed_fields_has_no_options() {
    let e = EDNS0::from_payload(&[0, 0, 0, 2, 0, 0]).unwrap();
    assert_eq!(e.udp_size, 512);
    assert!(e.edns0_data.is_empty());
}

#[test]
fn extension_record_with_short_payload_is_truncated() {
    let m = with_additionals(vec![opt(vec![0, 0, 0, 16, 0])]);
    assert_eq!(EDNS0::parse(&m), Err(EDNS0Error::Wire(WireError::Truncated)));
    assert_eq!(EDNS0::from_payload(&[]), Err(EDNS0Error::Wire(WireError::Truncated)));
}

#[test]
fn record_of_type_41_with_another_payload_is_passed_over() {
    let odd = Record {
        name: String::new(),
        rtype: 41,
        rclass: 1,
        ttl: 0,
        rdata: RData::TXT("not raw".to_string()),
    };
    let m = with_additionals(vec![odd.clone()]);
    assert_eq!(EDNS0::parse(&m), Ok(None));
    let m = with_additionals(vec![odd, opt(vec![0, 0, 0, 16, 0, 0])]);
    assert_eq!(EDNS0::parse(&m).unwrap().unwrap().udp_size, 4096);
}

#[test]
fn adding_appends_the_record_and_counts_it() {
    let mut m = Message::new();
    m.header.id = 5;
    m.header.qdcount = 1;
    m.questions.push(Question { qname: "example.com".to_string(), qtype: 1, qclass: 1 });
    let before = encode_message(&m).unwrap();
    let e = EDNS0 { version: 0, flags: 0x8000, udp_size: 1232, ext_rcode: 2, edns0_data: vec![7] };
    e.add_to_message(&mut m).unwrap();
    assert_eq!(m.header.arcount, 1);
    assert!(m.has_matching_counts());
    let mut payload = vec![0, 0x80, 0x00, 0x04, 0xD0, 2, 7];
    payload.extend_from_slice(&before);
    assert_eq!(
        m.additionals,
        vec![Record {
            name: ".".to_string(),
            rtype: 41,
            rclass: 1232,
            ttl: 0x8000_0002,
            rdata: RData::Raw(payload.clone()),
        }]
    );
    // the record goes over the wire and is found again
    let back = decode_message(&encode_message(&m).unwrap()).unwrap();
    let found = EDNS0::parse(&back).unwrap().unwrap();
    assert_eq!((found.version, found.flags, found.udp_size, found.ext_rcode), (0, 0x8000, 1232, 2));
    assert_eq!(found.edns0_data, payload[6..].to_vec());
}

#[test]
fn message_that_cannot_take_the_record_stays_as_it_was() {
    let e = EDNS0::new();
    let mut m = Message::new();
    m.header.ancount = 1;
    let before = m.clone();
    assert_eq!(e.add_to_message(&mut m), Err(EDNS0Error::InvalidRecord));
    assert_eq!(m, before);

    let mut m = Message::new();
    m.header.qdcount = 1;
    m.questions.push(Question { qname: "a..b".to_string(), qtype: 1, qclass: 1 });
    let before = m.clone();
    assert_eq!(e.add_to_message(&mut m), Err(EDNS0Error::Wire(WireError::EmptyLabel)));
    assert_eq!(m, before);
}

#[test]
fn tsig_holds_its_fields() {
    let t = TSIG {
        algorithm: "hmac-sha256".to_string(),
        name: "key.example".to_string(),
        time_signed: 1,
        fudge: 300,
        mac: vec![1, 2],
        original_id: 7,
        error: 0,
        other_data: vec![],
    };
    assert_eq!(t.fudge, 300);
    assert_eq!(t.mac, vec![1, 2]);
}

fn request(qtype: u16) -> Message {
    let mut m = Message::new();
    m.header.id = 0x4242;
    m.header.rd = true;
    m.header.opcode = 4;
    m.header.qdcount = 1;
    m.questions.push(Question { qname: "example.com".to_string(), qtype, qclass: 1 });
    m
}

#[test]
fn full_transfer_answers_with_the_zone() {
    let zone = vec![address("example.com"), address("www.example.com")];
    let response = handle_axfr_rf(&request(252), &zone).unwrap();
    assert_eq!(response.header.id, 0x4242);
    assert!(response.header.qr && response.header.aa && response.header.ra && response.header.rd);
    assert!(!response.header.tc);
    assert_eq!((response.header.opcode, response.header.rcode, response.header.z), (0, 0, 0));
    assert_eq!(response.questions, request(252).questions);
    assert_eq!(response.answers, zone);
    assert!(response.authorities.is_empty() && response.additionals.is_empty());
    assert_eq!((response.header.qdcount, response.header.ancount), (1, 2));
    assert!(response.has_matching_counts());
    assert_eq!(decode_message(&encode_message(&response).unwrap()).unwrap(), response);
}

#[test]
fn full_transfer_keeps_the_wish_for_recursion() {
    let mut req = request(252);
    req.header.rd = false;
    let response = handle_axfr_rf(&req, &[]).unwrap();
    assert!(!response.header.rd);
    assert_eq!(response.header.ancount, 0);
}

#[test]
fn full_transfer_of_too_many_records_is_refused() {
    let zone = vec![address("a"); 65536];
    assert_eq!(handle_axfr_rf(&request(252), &zone), Err(ZoneTransferError::TooManyRecords));
    let zone = vec![address("a"); 65535];
    assert_eq!(handle_axfr_rf(&request(252), &zone).unwrap().header.ancount, 65535);
}

#[test]
fn full_transfer_of_too_many_questions_is_refused() {
    let mut req = request(252);
    let q = req.questions[0].clone();
    req.questions = vec![q; 65536];
    assert_eq!(handle_axfr_rf(&req, &[]), Err(ZoneTransferError::InvalidAxfrRequest));
}

#[test]
fn incremental_transfer_answers_with_the_changes() {
    let changes = vec![address("new.example.com")];
    let response = handle_ixfr(&request(251), &changes).unwrap();
    assert_eq!(response.header.id, 0x4242);
    assert!(response.header.qr && response.header.aa && response.header.ra);
    assert_eq!(response.questions, request(251).questions);
    assert_eq!(response.answers, changes);
    assert_eq!((response.header.qdcount, response.header.ancount), (1, 1));
    assert!(response.has_matching_counts());
}

#[test]
fn incremental_transfer_needs_one_question_that_asks_for_it() {
    assert_eq!(handle_ixfr(&request(252), &[]), Err(ZoneTransferError::InvalidIxfrRequest));
    assert_eq!(handle_ixfr(&Message::new(), &[]), Err(ZoneTransferError::InvalidIxfrRequest));
    let mut two = request(251);
    two.questions.push(Question { qname: "b".to_string(), qtype: 251, qclass: 1 });
    assert_eq!(handle_ixfr(&two, &[]), Err(ZoneTransferError::InvalidIxfrRequest));
    let many = vec![address("a"); 65536];
    assert_eq!(handle_ixfr(&request(251), &many), Err(ZoneTransferError::TooManyRecords));
}
