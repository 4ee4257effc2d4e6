use geneva::errors::Error;
use geneva::triggers::{GenevaTrigger, IPField, IPTrigger, TCPField, TCPTrigger, Trigger};
use geneva::Packet;

fn tcp_packet(flags: u16, options: &[u8], payload: &[u8]) -> Packet {
    let header = 20 + options.len();
    let total = 20 + header + payload.len();
    let mut p = vec![
        0x45, 0x10, (total >> 8) as u8, total as u8, 0x12, 0x34, 0x40, 0x00, 64, 6, 0xab, 0xcd, 10,
        0, 0, 1, 192, 168, 1, 20,
    ];
    p.extend_from_slice(&[
        0x30, 0x39, 0x00, 0x50, 0x00, 0x00, 0x03, 0xe8, 0x80, 0x00, 0x00, 0x01,
        ((header / 4) << 4) as u8 | (flags >> 8) as u8, flags as u8, 0x20, 0x00, 0x11, 0x22, 0, 9,
    ]);
    p.extend_from_slice(options);
    p.extend_from_slice(payload);
    Packet::new(p)
}

fn ip(field: &str, value: &str) -> bool {
    let f = IPField::from_str(field).unwrap();
    IPTrigger::new(f, value.to_string(), 0, 0).matches(&tcp_packet(0x12, &[], b"GET / HTTP/1.1"))
}

fn tcp_on(field: &str, value: &str, pkt: &Packet) -> bool {
    let f = TCPField::from_str(field).unwrap();
    TCPTrigger::new(f, value.to_string(), 0).unwrap().matches(pkt)
}

fn tcp(field: &str, value: &str) -> bool {
    tcp_on(field, value, &tcp_packet(0x12, &[], b"GET / HTTP/1.1"))
}

#[test]
fn field_names() {
    for name in [
        "version", "ihl", "tos", "len", "id", "flags", "frag", "ttl", "protocol", "chksum", "src",
        "dst", "load",
    ] {
        assert_eq!(IPField::from_str(name).unwrap().to_string(), name);
    }
    for name in [
        "sport", "dport", "seq", "ack", "dataofs", "reserved", "flags", "window", "chksum",
        "urgptr", "load", "options-eol", "options-nop", "options-mss", "options-wscale",
        "options-sackok", "options-sack", "options-timestamp", "options-altchksum",
        "options-altchksumopt", "options-md5header", "options-uto",
    ] {
        assert_eq!(TCPField::from_str(name).unwrap().to_string(), name);
    }
    assert_eq!(IPField::from_str("TOS").unwrap(), IPField::TOS);
    assert!(matches!(IPField::from_str("sport"), Err(Error::Parse(t)) if t == "sport"));
    assert!(matches!(TCPField::from_str("ttl"), Err(Error::Parse(t)) if t == "ttl"));
    assert!(matches!(TCPField::from_str(""), Err(Error::Parse(t)) if t.is_empty()));
    assert!(matches!(TCPField::from_str("Flags"), Err(Error::Parse(t)) if t == "Flags"));
}

#[test]
fn trigger_str() {
    let t = IPTrigger::new(IPField::TTL, "64".to_string(), 0, 0);
    assert_eq!(t.to_string(), "[IP:ttl:64]");
    assert_eq!(t.protocol(), "IP");
    assert_eq!(t.field(), "ttl");
    assert_eq!(t.value(), "64");
    assert_eq!(t.gas(), 0);
    let t = TCPTrigger::new(TCPField::Flags, "S".to_string(), 3).unwrap();
    assert_eq!(t.to_string(), "[TCP:flags:S:3]");
    assert_eq!(t.gas(), 3);
    let t = GenevaTrigger::TCP(t);
    assert_eq!(t.to_string(), "[TCP:flags:S:3]");
    assert_eq!(t.protocol(), "TCP");
    assert_eq!(t.field(), "flags");
    assert_eq!(t.gas(), 3);
    assert_eq!(t.clone().to_string(), "[TCP:flags:S:3]");
    let t = IPTrigger::new(IPField::Length, "1".to_string(), usize::MAX, 0);
    assert_eq!(t.to_string(), format!("[IP:len:1:{}]", usize::MAX));
}

#[test]
fn numbers_match_by_their_value() {
    assert!(ip("version", "4"));
    assert!(ip("ihl", "5"));
    assert!(ip("tos", "16"));
    assert!(ip("len", "54"));
    assert!(ip("id", "4660"));
    assert!(ip("flags", "2"));
    assert!(ip("frag", "0"));
    assert!(ip("ttl", "64"));
    assert!(ip("ttl", "0064"));
    assert!(ip("protocol", "6"));
    assert!(ip("chksum", "43981"));
    assert!(!ip("ttl", "65"));
    assert!(!ip("ttl", ""));
    assert!(!ip("ttl", "64 "));
    assert!(!ip("ttl", "0x40"));
    assert!(!ip("ttl", "99999999999999999999999999"));
    assert!(tcp("sport", "12345"));
    assert!(tcp("dport", "80"));
    assert!(tcp("seq", "1000"));
    assert!(tcp("ack", "2147483649"));
    assert!(tcp("dataofs", "5"));
    assert!(tcp("reserved", "0"));
    assert!(tcp("window", "8192"));
    assert!(tcp("chksum", "4386"));
    assert!(tcp("urgptr", "9"));
    assert!(!tcp("dport", "443"));
}

#[test]
fn flags_match_as_a_set() {
    assert!(tcp("flags", "SA"));
    assert!(tcp("flags", "AS"));
    assert!(tcp("flags", "SAS"));
    assert!(!tcp("flags", "S"));
    assert!(!tcp("flags", "A"));
    assert!(!tcp("flags", "SAF"));
    assert!(!tcp("flags", ""));
    assert!(!tcp("flags", "sa"));
    assert!(!tcp("flags", "18"));
    let none = tcp_packet(0, &[], b"");
    assert!(tcp_on("flags", "", &none));
    let all = tcp_packet(0x1ff, &[], b"");
    assert!(tcp_on("flags", "FSRPAUECN", &all));
    assert!(!tcp_on("flags", "FSRPAUEC", &all));
    assert!(tcp_on("reserved", "0", &all));
    assert!(tcp_on("dataofs", "5", &all));
}

#[test]
fn addresses_match_to_the_letter() {
    assert!(ip("src", "10.0.0.1"));
    assert!(ip("dst", "192.168.1.20"));
    assert!(!ip("src", "10.0.0.2"));
    assert!(!ip("src", "10.0.0.01"));
    assert!(!ip("src", "10.0.0"));
    assert!(!ip("src", "167772161"));
}

#[test]
fn payloads_match_what_they_hold() {
    assert!(tcp("load", "GET"));
    assert!(tcp("load", "HTTP/1.1"));
    assert!(tcp("load", " / "));
    assert!(tcp("load", ""));
    assert!(tcp("load", "GET / HTTP/1.1"));
    assert!(!tcp("load", "GET / HTTP/1.1 "));
    assert!(!tcp("load", "POST"));
    assert!(!tcp("load", "get"));
    // the payload of the IP layer begins with the TCP header
    assert!(ip("load", "GET"));
    assert!(ip("load", "09\0P"));
    assert!(!tcp("load", "09\0P"));
    let umlaut = tcp_packet(0x18, &[], "gr\u{fc}n".as_bytes());
    assert!(tcp_on("load", "\u{fc}", &umlaut));
    assert!(!tcp_on("load", "u", &umlaut));
}

#[test]
fn options_match_where_they_are_carried() {
    // MSS 1460, NOP, window scale 7, SACK permitted, timestamps, end of list
    let options = [
        2, 4, 0x05, 0xb4, 1, 3, 3, 7, 4, 2, 8, 10, b'a', b'b', b'c', b'd', 0, 0, 0, 0, 0, 0, 0, 0,
    ];
    let pkt = tcp_packet(0x02, &options, b"data");
    assert!(tcp_on("dataofs", "11", &pkt));
    assert!(tcp_on("options-mss", "1460", &pkt));
    assert!(!tcp_on("options-mss", "1461", &pkt));
    assert!(tcp_on("options-wscale", "7", &pkt));
    assert!(tcp_on("options-nop", "", &pkt));
    assert!(!tcp_on("options-nop", "1", &pkt));
    assert!(tcp_on("options-sackok", "", &pkt));
    assert!(tcp_on("options-timestamp", "abcd", &pkt));
    assert!(tcp_on("options-timestamp", "bc", &pkt));
    assert!(!tcp_on("options-timestamp", "abcde", &pkt));
    assert!(tcp_on("options-eol", "", &pkt));
    assert!(!tcp_on("options-uto", "", &pkt));
    assert!(!tcp_on("options-sack", "", &pkt));
    assert!(tcp_on("load", "data", &pkt));
    assert!(!tcp_on("load", "abcd", &pkt));
    // options behind the end of the list are not seen, nor behind a broken one
    let pkt = tcp_packet(0x02, &[0, 2, 4, 0x05, 0xb4, 0, 0, 0], b"");
    assert!(!tcp_on("options-mss", "1460", &pkt));
    let pkt = tcp_packet(0x02, &[3, 1, 7, 0, 2, 4, 0x05, 0xb4], b"");
    assert!(!tcp_on("options-mss", "1460", &pkt));
    let pkt = tcp_packet(0x02, &[2, 8, 1, 2, 3, 4, 5, 6], b"");
    assert!(!tcp_on("options-mss", "1", &pkt));
}

#[test]
fn packets_without_the_layer_match_nothing() {
    let t = |p: &[u8]| {
        IPTrigger::new(IPField::Payload, String::new(), 0, 0).matches(&Packet::new(p.to_vec()))
    };
    assert!(!t(&[]));
    assert!(!t(&[0x45; 19]));
    assert!(t(&[0x45; 20]));
    assert!(!t(&[0x65; 20]));
    assert!(!t(&[0x44; 20]));
    assert!(!t(&[0x46; 23]));
    assert!(t(&[0x46; 24]));
    let pkt = tcp_packet(0x02, &[], b"");
    assert!(tcp_on("load", "", &pkt));
    let mut udp = pkt.as_slice().to_vec();
    udp[9] = 17;
    assert!(!tcp_on("load", "", &Packet::new(udp)));
    let mut later = pkt.as_slice().to_vec();
    later[7] = 1;
    assert!(!tcp_on("load", "", &Packet::new(later)));
    let short = pkt.as_slice()[..39].to_vec();
    assert!(!tcp_on("load", "", &Packet::new(short)));
    let mut thin = pkt.as_slice().to_vec();
    thin[32] = 0x40;
    assert!(!tcp_on("load", "", &Packet::new(thin)));
    let mut wide = pkt.as_slice().to_vec();
    wide[32] = 0x60;
    assert!(!tcp_on("load", "", &Packet::new(wide)));
}

#[test]
fn gas_runs_out() {
    let syn = tcp_packet(0x02, &[], b"");
    let ack = tcp_packet(0x10, &[], b"");
    let mut t = TCPTrigger::new(TCPField::Flags, "S".to_string(), 1).unwrap();
    assert!(!t.matches(&ack));
    assert!(t.matches(&syn));
    assert!(!t.matches(&syn));
    assert!(!t.matches(&syn));
    assert!(!t.matches(&ack));
    assert_eq!(t.gas(), 1);

    let mut t = GenevaTrigger::IP(IPTrigger::new(IPField::TTL, "64".to_string(), 3, 0));
    let hits: Vec<bool> = (0..5).map(|_| t.matches(&syn)).collect();
    assert_eq!(hits, [true, true, true, false, false]);

    let mut t = TCPTrigger::new(TCPField::Flags, "S".to_string(), 0).unwrap();
    assert!((0..100).all(|_| t.matches(&syn)));
}
