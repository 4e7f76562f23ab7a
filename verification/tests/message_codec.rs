use dns_core::compression::{Reader, Writer};
use dns_core::header::Header;
use dns_core::message::Message;
use dns_core::question::Question;
use dns_core::record::{RData, Record, RecordError};
use dns_core::transport::{decode_message, encode_message};
use dns_core::wire::WireError;

fn question(name: &str) -> Question {
    Question { qname: name.to_string(), qtype: 1, qclass: 1 }
}

fn address(name: &str, last: u8) -> Record {
    Record { name: name.to_string(), rtype: 1, rclass: 1, ttl: 300, rdata: RData::A([192, 0, 2, last]) }
}

fn message(
    questions: Vec<Question>,
    answers: Vec<Record>,
    authorities: Vec<Record>,
    additionals: Vec<Record>,
) -> Message {
    let mut m = Message::new();
    m.header.id = 0x1234;
    m.header.qr = true;
    m.header.rd = true;
    m.header.qdcount = questions.len() as u16;
    m.header.ancount = answers.len() as u16;
    m.header.nscount = authorities.len() as u16;
    m.header.arcount = additionals.len() as u16;
    m.questions = questions;
    m.answers = answers;
    m.authorities = authorities;
    m.additionals = additionals;
    m
}

fn plain_name_len(name: &str) -> usize {
    if name.is_empty() {
        1
    } else {
        name.len() + 2
    }
}

#[test]
fn new_message_is_empty() {
    let m = Message::new();
    assert_eq!(m.header, Header::new());
    assert!(m.questions.is_empty() && m.answers.is_empty());
    assert!(m.authorities.is_empty() && m.additionals.is_empty());
    assert!(m.has_matching_counts());
    assert_eq!(encode_message(&m).unwrap(), vec![0u8; 12]);
}

#[test]
fn message_without_repeated_names_is_read_back() {
    let m = message(
        vec![question("alpha.example")],
        vec![address("beta.test", 1)],
        vec![Record {
            name: "gamma.invalid".to_string(),
            rtype: 2,
            rclass: 1,
            ttl: 1,
            rdata: RData::NS("delta.localhost".to_string()),
        }],
        vec![address("epsilon.arpa", 2)],
    );
    let bytes = encode_message(&m).unwrap();
    // nothing to reuse: every name in full
    let names = ["alpha.example", "beta.test", "gamma.invalid", "delta.localhost", "epsilon.arpa"];
    let plain: usize = 12
        + names.iter().map(|n| plain_name_len(n)).sum::<usize>()
        + 4
        + 3 * 10
        + 4
        + 4;
    assert_eq!(bytes.len(), plain);
    assert_eq!(decode_message(&bytes).unwrap(), m);
}

#[test]
fn message_with_repeated_names_is_shorter_and_read_back() {
    let m = message(
        vec![question("www.example.com")],
        vec![
            Record {
                name: "www.example.com".to_string(),
                rtype: 5,
                rclass: 1,
                ttl: 60,
                rdata: RData::CNAME("host.example.com".to_string()),
            },
            address("host.example.com", 7),
        ],
        vec![Record {
            name: "example.com".to_string(),
            rtype: 2,
            rclass: 1,
            ttl: 60,
            rdata: RData::NS("ns.example.com".to_string()),
        }],
        vec![address("ns.example.com", 8), address("NS.example.com", 9)],
    );
    let bytes = encode_message(&m).unwrap();
    let names = [
        "www.example.com",
        "www.example.com",
        "host.example.com",
        "host.example.com",
        "example.com",
        "ns.example.com",
        "ns.example.com",
        "NS.example.com",
    ];
    let plain: usize =
        12 + names.iter().map(|n| plain_name_len(n)).sum::<usize>() + 4 + 5 * 10 + 3 * 4;
    assert_eq!(plain, 209);
    assert!(bytes.len() < plain);
    // question in full (17 + 4), then pointers: 2, 5 + 2, 2, 2, 3 + 2, 2, 3 + 2
    assert_eq!(bytes.len(), 12 + 17 + 4 + 5 * 10 + 3 * 4 + 2 + 7 + 2 + 2 + 5 + 2 + 5);
    let back = decode_message(&bytes).unwrap();
    assert_eq!(back, m);
    assert_eq!(back.additionals[1].name, "NS.example.com");
    // and what is read is written as the same octets
    assert_eq!(encode_message(&back).unwrap(), bytes);
}

#[test]
fn counts_after_reading_are_the_lengths_of_the_sections() {
    let m = message(
        vec![question("a"), question("b")],
        vec![address("a", 1), address("b", 2), address("c", 3)],
        vec![],
        vec![address("d", 4)],
    );
    let back = decode_message(&encode_message(&m).unwrap()).unwrap();
    assert_eq!(back.header.qdcount as usize, back.questions.len());
    assert_eq!(back.header.ancount as usize, back.answers.len());
    assert_eq!(back.header.nscount as usize, back.authorities.len());
    assert_eq!(back.header.arcount as usize, back.additionals.len());
    assert_eq!(
        (back.questions.len(), back.answers.len(), back.authorities.len(), back.additionals.len()),
        (2, 3, 0, 1)
    );
    assert!(back.has_matching_counts());
}

#[test]
fn counts_say_how_many_entries_are_read() {
    // the header counts one question; a second one that follows is not read
    let mut bytes = vec![0, 1, 0, 0, 0, 1, 0, 0, 0, 0, 0, 0];
    bytes.extend_from_slice(&[1, b'a', 0, 0, 1, 0, 1]);
    bytes.extend_from_slice(&[1, b'b', 0, 0, 1, 0, 1]);
    let mut r = Reader::new(&bytes);
    let m = Message::read(&mut r).unwrap();
    assert_eq!(m.questions.len(), 1);
    assert_eq!(r.position(), 19);
}

#[test]
fn one_bad_entry_fails_the_whole_message() {
    let m = message(vec![question("a")], vec![address("a", 1), address("b", 2)], vec![], vec![]);
    let mut bytes = encode_message(&m).unwrap();
    // cut the last record short
    bytes.truncate(bytes.len() - 1);
    assert_eq!(decode_message(&bytes), Err(RecordError::Wire(WireError::Truncated)));
    // claim one more answer than there is
    let mut bytes = encode_message(&m).unwrap();
    bytes[7] = 3;
    assert_eq!(decode_message(&bytes), Err(RecordError::Wire(WireError::Truncated)));
    // a wrong address length in the first answer
    let mut bytes = encode_message(&m).unwrap();
    let at = 12 + 7 + 2 + 8;
    assert_eq!(&bytes[at..at + 2], &[0, 4]);
    bytes[at + 1] = 3;
    assert_eq!(decode_message(&bytes), Err(RecordError::InvalidRDataLength(1)));
}

#[test]
fn short_message_is_truncated() {
    assert_eq!(decode_message(&[]), Err(RecordError::Wire(WireError::Truncated)));
    assert_eq!(decode_message(&[0; 11]), Err(RecordError::Wire(WireError::Truncated)));
    let empty = decode_message(&[0; 12]).unwrap();
    assert_eq!(empty, Message::new());
}

#[test]
fn message_with_a_fault_is_not_written() {
    let m = message(
        vec![question("fine")],
        vec![address("fine", 1)],
        vec![address(&"x".repeat(64), 2)],
        vec![address("a..b", 3)],
    );
    assert_eq!(m.fault(), Some(WireError::LabelTooLong));
    assert_eq!(encode_message(&m), Err(WireError::LabelTooLong));
    let mut w = Writer::new();
    w.put_u8(9);
    assert_eq!(m.write(&mut w), Err(WireError::LabelTooLong));
    assert_eq!(w.into_bytes(), vec![9]);
}

#[test]
fn first_fault_in_section_order_is_reported() {
    let m = message(vec![question("a..b")], vec![address(&"x".repeat(64), 2)], vec![], vec![]);
    assert_eq!(encode_message(&m), Err(WireError::EmptyLabel));
}

#[test]
fn message_clone_is_equal() {
    let m = message(vec![question("a")], vec![address("a", 1)], vec![], vec![address("b", 2)]);
    assert_eq!(m.clone(), m);
}

#[test]
fn sections_are_written_in_their_order() {
    let m = message(
        vec![question("q")],
        vec![address("an", 1)],
        vec![address("ns", 2)],
        vec![address("ar", 3)],
    );
    let bytes = encode_message(&m).unwrap();
    let pos = |needle: &[u8]| bytes.windows(needle.len()).position(|w| w == needle).unwrap();
    assert!(pos(&[1, b'q']) < pos(&[2, b'a', b'n']));
    assert!(pos(&[2, b'a', b'n']) < pos(&[2, b'n', b's']));
    assert!(pos(&[2, b'n', b's']) < pos(&[2, b'a', b'r']));
}
