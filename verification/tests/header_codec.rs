use dns_core::compression::{Reader, Writer};
use dns_core::header::Header;
use dns_core::wire::WireError;

fn sample() -> Header {
    Header {
        id: 0xBEEF,
        qr: true,
        opcode: 2,
        aa: true,
        tc: false,
        rd: true,
        ra: true,
        z: 5,
        rcode: 3,
        qdcount: 1,
        ancount: 0x0203,
        nscount: 0,
        arcount: 65535,
    }
}

#[test]
fn new_header_is_all_zero() {
    let h = Header::new();
    assert_eq!(
        h,
        Header {
            id: 0,
            qr: false,
            opcode: 0,
            aa: false,
            tc: false,
            rd: false,
            ra: false,
            z: 0,
            rcode: 0,
            qdcount: 0,
            ancount: 0,
            nscount: 0,
            arcount: 0
        }
    );
    let mut w = Writer::new();
    h.write(&mut w).unwrap();
    assert_eq!(w.into_bytes(), vec![0u8; 12]);
}

#[test]
fn header_bits_are_packed_in_their_places() {
    let mut w = Writer::new();
    sample().write(&mut w).unwrap();
    // 1 0010 1 0 1  |  1 101 0011
    assert_eq!(
        w.into_bytes(),
        vec![0xBE, 0xEF, 0b1001_0101, 0b1101_0011, 0, 1, 2, 3, 0, 0, 0xFF, 0xFF]
    );
}

#[test]
fn each_flag_has_its_own_bit() {
    let cases: [(fn(&mut Header), u8, u8); 5] = [
        (|h| h.qr = true, 0x80, 0),
        (|h| h.aa = true, 0x04, 0),
        (|h| h.tc = true, 0x02, 0),
        (|h| h.rd = true, 0x01, 0),
        (|h| h.ra = true, 0, 0x80),
    ];
    for (set, hi, lo) in cases {
        let mut h = Header::new();
        set(&mut h);
        let mut w = Writer::new();
        h.write(&mut w).unwrap();
        let b = w.into_bytes();
        assert_eq!((b[2], b[3]), (hi, lo));
        let mut r = Reader::new(&b);
        assert_eq!(Header::read(&mut r).unwrap(), h);
    }
}

#[test]
fn header_is_read_back() {
    let mut w = Writer::new();
    sample().write(&mut w).unwrap();
    let b = w.into_bytes();
    let mut r = Reader::new(&b);
    assert_eq!(Header::read(&mut r).unwrap(), sample());
    assert_eq!(r.position(), 12);
}

#[test]
fn codes_out_of_range_are_cut_to_their_bits() {
    let mut h = Header::new();
    h.opcode = 0x1F;
    h.z = 0x0F;
    h.rcode = 0xF3;
    let mut w = Writer::new();
    h.write(&mut w).unwrap();
    let b = w.into_bytes();
    assert_eq!((b[2], b[3]), (0x0F << 3, (0x07 << 4) | 0x03));
    let mut r = Reader::new(&b);
    let back = Header::read(&mut r).unwrap();
    assert_eq!((back.opcode, back.z, back.rcode), (15, 7, 3));
}

#[test]
fn short_header_is_truncated() {
    let b = [0u8; 11];
    let mut r = Reader::new(&b);
    assert_eq!(Header::read(&mut r), Err(WireError::Truncated));
    assert_eq!(r.position(), 0);
}
