use dns_core::message::Message;
use dns_core::question::Question;
use dns_core::record::{RData, Record};
use dns_core::transport::{
    datagram_capacity, datagram_step, decode_message, encode_message, frame, front_frame_len,
    reply_datagram, reply_stream, serve_datagram, serve_stream, stream_open, stream_step,
    DatagramAction, Received, StreamAction, StreamEvent, StreamStep, Waiting,
};

fn query(id: u16, name: &str) -> Message {
    let mut m = Message::new();
    m.header.id = id;
    m.header.rd = true;
    m.header.qdcount = 1;
    m.questions.push(Question { qname: name.to_string(), qtype: 1, qclass: 1 });
    m
}

fn answer(request: Message) -> Message {
    let mut m = request;
    m.header.qr = true;
    m.header.ra = true;
    m.header.ancount = 1;
    let name = m.questions[0].qname.clone();
    m.answers.push(Record {
        name,
        rtype: 1,
        rclass: 1,
        ttl: 60,
        rdata: RData::A([127, 0, 0, (m.header.id & 0xFF) as u8]),
    });
    m
}

#[test]
fn frame_is_length_then_message() {
    assert_eq!(frame(&[1, 2, 3]).unwrap(), vec![0, 3, 1, 2, 3]);
    assert_eq!(frame(&[]).unwrap(), vec![0, 0]);
    let body = vec![5u8; 0x0102];
    let framed = frame(&body).unwrap();
    assert_eq!(&framed[..2], &[0x01, 0x02]);
    assert_eq!(&framed[2..], &body[..]);
}

#[test]
fn frame_of_more_than_65535_octets_is_refused() {
    assert_eq!(frame(&vec![0u8; 65535]).unwrap().len(), 65537);
    assert_eq!(frame(&vec![0u8; 65536]), None);
}

#[test]
fn front_frame_is_known_once_complete() {
    assert_eq!(front_frame_len(&[]), None);
    assert_eq!(front_frame_len(&[0]), None);
    assert_eq!(front_frame_len(&[0, 3, 1, 2]), None);
    assert_eq!(front_frame_len(&[0, 3, 1, 2, 3]), Some(3));
    assert_eq!(front_frame_len(&[0, 3, 1, 2, 3, 4, 5]), Some(3));
    assert_eq!(front_frame_len(&[0, 0]), Some(0));
}

#[test]
fn stream_answers_two_frames_in_order_before_a_third() {
    // a header, the name in 12 octets, type and class: 28 octets
    let first = encode_message(&query(1, "a.test.com")).unwrap();
    assert_eq!(first.len(), 28);
    let second = encode_message(&query(2, "b.test.com")).unwrap();
    let mut input = vec![0x00, 0x1C];
    input.extend_from_slice(&first);
    input.extend_from_slice(&frame(&second).unwrap());

    let (used1, reply1) = match serve_stream(&input, &answer) {
        StreamStep::Reply { consumed, reply } => (consumed, reply.unwrap()),
        other => panic!("{:?}", other),
    };
    assert_eq!(used1, 30);
    let (used2, reply2) = match serve_stream(&input[used1..], &answer) {
        StreamStep::Reply { consumed, reply } => (consumed, reply.unwrap()),
        other => panic!("{:?}", other),
    };
    assert_eq!(used1 + used2, input.len());
    // nothing is left: a third frame has to arrive first
    assert_eq!(serve_stream(&input[used1 + used2..], &answer), StreamStep::NeedMore);

    let r1 = decode_message(&reply1[2..]).unwrap();
    let r2 = decode_message(&reply2[2..]).unwrap();
    assert_eq!(reply1[..2], [(reply1.len() - 2 >> 8) as u8, (reply1.len() - 2) as u8]);
    assert_eq!(r1, answer(query(1, "a.test.com")));
    assert_eq!(r2, answer(query(2, "b.test.com")));
    assert_eq!(r1.answers[0].rdata, RData::A([127, 0, 0, 1]));
    assert_eq!(r2.answers[0].rdata, RData::A([127, 0, 0, 2]));
    // the two replies are independent: each is a message of its own, with its own table
    assert_eq!(reply1.len(), reply2.len());
}

#[test]
fn stream_waits_for_the_rest_of_a_frame() {
    let body = encode_message(&query(1, "a.test.com")).unwrap();
    let input = frame(&body).unwrap();
    for cut in 0..input.len() {
        assert_eq!(serve_stream(&input[..cut], &answer), StreamStep::NeedMore);
    }
    assert!(matches!(serve_stream(&input, &answer), StreamStep::Reply { consumed: 30, .. }));
}

#[test]
fn stream_closes_on_a_frame_that_is_no_message() {
    let calls = std::cell::Cell::new(0);
    let handler = |m: Message| {
        calls.set(calls.get() + 1);
        m
    };
    let input = frame(&[1, 2, 3, 4, 5]).unwrap();
    assert_eq!(serve_stream(&input, &handler), StreamStep::Close);
    assert_eq!(calls.get(), 0);
}

#[test]
fn stream_sends_nothing_for_a_response_that_cannot_be_written() {
    let input = frame(&encode_message(&query(1, "a.test.com")).unwrap()).unwrap();
    let bad_name = |mut m: Message| {
        m.questions[0].qname = "a..b".to_string();
        m
    };
    assert_eq!(
        serve_stream(&input, &bad_name),
        StreamStep::Reply { consumed: input.len(), reply: None }
    );
    let bad_count = |mut m: Message| {
        m.header.ancount = 5;
        m
    };
    assert_eq!(
        serve_stream(&input, &bad_count),
        StreamStep::Reply { consumed: input.len(), reply: None }
    );
}

#[test]
fn stream_sends_nothing_for_a_response_too_long_for_a_frame() {
    let input = frame(&encode_message(&query(1, "a.test.com")).unwrap()).unwrap();
    let huge = |mut m: Message| {
        m.header.ancount = 2;
        for _ in 0..2 {
            m.answers.push(Record {
                name: "a.test.com".to_string(),
                rtype: 99,
                rclass: 1,
                ttl: 0,
                rdata: RData::Raw(vec![0; 40000]),
            });
        }
        m
    };
    assert_eq!(
        serve_stream(&input, &huge),
        StreamStep::Reply { consumed: input.len(), reply: None }
    );
    // as a datagram the same response has its octets
    let big = huge(query(1, "a.test.com"));
    assert!(reply_datagram(&big).unwrap().len() > 65535);
    assert_eq!(reply_stream(&big), None);
}

#[test]
fn datagram_transport_drops_garbage_and_answers_the_next() {
    let calls = std::cell::Cell::new(0);
    let handler = |m: Message| {
        calls.set(calls.get() + 1);
        answer(m)
    };
    let good = encode_message(&query(7, "example.com")).unwrap();
    let truncated = &good[..good.len() - 3];
    assert_eq!(serve_datagram(truncated, &handler), None);
    assert_eq!(serve_datagram(&[0xFF; 5], &handler), None);
    assert_eq!(calls.get(), 0);
    let reply = serve_datagram(&good, &handler).unwrap();
    assert_eq!(calls.get(), 1);
    assert_eq!(decode_message(&reply).unwrap(), answer(query(7, "example.com")));
    // and it goes on: the next query is answered as well
    let next = encode_message(&query(8, "example.net")).unwrap();
    let reply = serve_datagram(&next, &handler).unwrap();
    assert_eq!(decode_message(&reply).unwrap(), answer(query(8, "example.net")));
    assert_eq!(calls.get(), 2);
}

#[test]
fn datagram_reply_is_the_message_without_a_prefix() {
    let m = answer(query(3, "example.com"));
    assert_eq!(reply_datagram(&m).unwrap(), encode_message(&m).unwrap());
    let framed = reply_stream(&m).unwrap();
    assert_eq!(&framed[2..], &encode_message(&m).unwrap()[..]);
}

#[test]
fn octets_behind_a_message_are_ignored() {
    let mut bytes = encode_message(&query(3, "example.com")).unwrap();
    bytes.extend_from_slice(&[0xDE, 0xAD]);
    assert_eq!(decode_message(&bytes).unwrap(), query(3, "example.com"));
}

#[test]
fn receive_buffer_is_at_least_512_octets() {
    assert_eq!(datagram_capacity(None), 512);
    assert_eq!(datagram_capacity(Some(0)), 512);
    assert_eq!(datagram_capacity(Some(512)), 512);
    assert_eq!(datagram_capacity(Some(513)), 513);
    assert_eq!(datagram_capacity(Some(4096)), 4096);
    assert_eq!(datagram_capacity(Some(65535)), 65535);
}

#[test]
fn echoed_request_is_always_answered() {
    let echo = |m: Message| m;
    let good = encode_message(&query(9, "www.example.com")).unwrap();
    assert_eq!(serve_datagram(&good, &echo), Some(good.clone()));
    // a question whose label holds a dot is no message: nothing could be echoed
    let mut odd = vec![0, 9, 1, 0, 0, 1, 0, 0, 0, 0, 0, 0];
    odd.extend_from_slice(&[4, b'a', b'.', b'.', b'b', 0, 0, 1, 0, 1]);
    assert_eq!(serve_datagram(&odd, &echo), None);
    assert!(decode_message(&odd).is_err());
}

/// Runs a connection over `input` as a caller would: reads what is asked
/// for, writes what is to be written, and notes the order of both.
fn run_connection(input: &[u8], handler: &dyn Fn(Message) -> Message) -> (Vec<u8>, Vec<String>) {
    let serve = |m: Message| handler(m);
    let mut at = 0;
    let mut output = Vec::new();
    let mut log = Vec::new();
    let (mut waiting, mut action) = stream_open();
    loop {
        let next = match action {
            StreamAction::Read(n) => {
                if at + n > input.len() {
                    log.push("end".to_string());
                    stream_step(waiting, StreamEvent::Failed, &serve)
                } else {
                    log.push(format!("read {}..{}", at, at + n));
                    at += n;
                    stream_step(waiting, StreamEvent::Octets(&input[at - n..at]), &serve)
                }
            }
            StreamAction::Write(octets) => {
                log.push(format!("write {}", octets.len()));
                output.extend_from_slice(&octets);
                stream_step(waiting, StreamEvent::Written, &serve)
            }
            StreamAction::Close => break,
        };
        waiting = next.0;
        action = next.1;
    }
    (output, log)
}

#[test]
fn connection_writes_each_reply_before_it_reads_on() {
    let first = encode_message(&query(1, "a.test.com")).unwrap();
    let second = encode_message(&query(2, "b.test.com")).unwrap();
    let third = encode_message(&query(3, "c.test.com")).unwrap();
    let mut input = vec![0x00, 0x1C];
    input.extend_from_slice(&first);
    input.extend_from_slice(&frame(&second).unwrap());
    input.extend_from_slice(&frame(&third).unwrap());
    let (output, log) = run_connection(&input, &answer);
    let r1 = reply_stream(&answer(query(1, "a.test.com"))).unwrap();
    let r2 = reply_stream(&answer(query(2, "b.test.com"))).unwrap();
    let r3 = reply_stream(&answer(query(3, "c.test.com"))).unwrap();
    let mut expected = r1.clone();
    expected.extend_from_slice(&r2);
    expected.extend_from_slice(&r3);
    assert_eq!(output, expected);
    let n = r1.len();
    assert_eq!(
        log,
        vec![
            "read 0..2".to_string(),
            "read 2..30".to_string(),
            format!("write {}", n),
            "read 30..32".to_string(),
            "read 32..60".to_string(),
            format!("write {}", n),
            "read 60..62".to_string(),
            "read 62..90".to_string(),
            format!("write {}", n),
            "end".to_string(),
        ]
    );
}

#[test]
fn connection_steps_one_by_one() {
    let echo = |m: Message| m;
    assert_eq!(stream_open(), (Waiting::Length, StreamAction::Read(2)));
    assert_eq!(
        stream_step(Waiting::Length, StreamEvent::Octets(&[0x01, 0x02]), &echo),
        (Waiting::Body(0x0102), StreamAction::Read(0x0102))
    );
    let body = encode_message(&query(5, "example.com")).unwrap();
    assert_eq!(
        stream_step(Waiting::Body(body.len()), StreamEvent::Octets(&body), &echo),
        (Waiting::Reply, StreamAction::Write(frame(&body).unwrap()))
    );
    assert_eq!(
        stream_step(Waiting::Reply, StreamEvent::Written, &echo),
        (Waiting::Length, StreamAction::Read(2))
    );
    // a response that cannot be written: the connection reads on
    let bad = |mut m: Message| {
        m.header.ancount = 9;
        m
    };
    assert_eq!(
        stream_step(Waiting::Body(body.len()), StreamEvent::Octets(&body), &bad),
        (Waiting::Length, StreamAction::Read(2))
    );
}

#[test]
fn connection_closes_on_what_it_did_not_wait_for() {
    let echo = |m: Message| m;
    let closed = (Waiting::Closed, StreamAction::Close);
    let body = encode_message(&query(5, "example.com")).unwrap();
    let cases = [
        (Waiting::Length, StreamEvent::Failed),
        (Waiting::Length, StreamEvent::Written),
        (Waiting::Length, StreamEvent::Octets(&[1])),
        (Waiting::Length, StreamEvent::Octets(&[1, 2, 3])),
        (Waiting::Body(5), StreamEvent::Failed),
        (Waiting::Body(5), StreamEvent::Written),
        (Waiting::Body(5), StreamEvent::Octets(&[1, 2, 3, 4, 5])),
        (Waiting::Body(0), StreamEvent::Octets(&[])),
        (Waiting::Body(body.len() + 1), StreamEvent::Octets(&body)),
        (Waiting::Reply, StreamEvent::Failed),
        (Waiting::Reply, StreamEvent::Octets(&body)),
        (Waiting::Closed, StreamEvent::Written),
        (Waiting::Closed, StreamEvent::Octets(&[0, 0])),
    ];
    for (waiting, event) in cases {
        assert_eq!(stream_step(waiting, event, &echo), closed, "{:?} {:?}", waiting, event);
    }
}

#[test]
fn datagram_loop_goes_on_until_the_socket_fails() {
    let good = encode_message(&query(7, "example.com")).unwrap();
    let garbage = [0xFFu8; 7];
    let received = [
        Received::Datagram(&garbage),
        Received::Datagram(&good[..good.len() - 1]),
        Received::NotReady,
        Received::Datagram(&good),
        Received::Datagram(&[]),
        Received::Datagram(&good),
        Received::Failed,
    ];
    let mut actions = Vec::new();
    for r in received {
        let action = datagram_step(r, &answer);
        let stop = action == DatagramAction::Stop;
        actions.push(action);
        if stop {
            break;
        }
    }
    let reply = reply_datagram(&answer(query(7, "example.com"))).unwrap();
    assert_eq!(
        actions,
        vec![
            DatagramAction::GoOn,
            DatagramAction::GoOn,
            DatagramAction::Wait,
            DatagramAction::Send(reply.clone()),
            DatagramAction::GoOn,
            DatagramAction::Send(reply),
            DatagramAction::Stop,
        ]
    );
    // a response that cannot be written is not sent, and the loop goes on
    let bad = |mut m: Message| {
        m.questions[0].qname = "a..b".to_string();
        m
    };
    assert_eq!(datagram_step(Received::Datagram(&good), &bad), DatagramAction::GoOn);
}
