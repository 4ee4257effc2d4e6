use geneva::actions::{DropAction, DuplicateAction, FragmentAction, SendAction};

#[test]
fn send_str() {
    let a = SendAction::default();
    assert_eq!(a.to_string(), "");
}

#[test]
fn drop_str() {
    let a = DropAction::default();
    assert_eq!(a.to_string(), "drop");
}

#[test]
fn duplicate_str() {
    let mut a = DuplicateAction::new(SendAction::default().into(), SendAction::default().into());
    assert_eq!(a.to_string(), "duplicate");

    a.left = Box::new(DropAction::default().into());
    assert_eq!(a.to_string(), "duplicate(drop,)");

    a.right = Box::new(DropAction::default().into());
    assert_eq!(a.to_string(), "duplicate(drop,drop)");

    a.left = Box::new(SendAction::default().into());
    assert_eq!(a.to_string(), "duplicate(,drop)");
}

#[test]
fn duplicate_str_multiple_levels() {
    let inner1 = DuplicateAction::new(SendAction::default().into(), DropAction::default().into());
    let inner = DuplicateAction::new(SendAction::default().into(), inner1.into());
    let a = DuplicateAction::new(inner.into(), DropAction::default().into());
    assert_eq!(
        a.to_string(),
        "duplicate(duplicate(,duplicate(,drop)),drop)"
    );
}

#[test]
fn fragment_str() {
    let a = FragmentAction::new(
        6,
        12,
        true,
        0,
        SendAction::default().into(),
        SendAction::default().into(),
    );
    assert!(a.is_ok());

    let mut a = a.unwrap();
    assert_eq!(a.to_string(), "fragment{6:12:True}");

    a.in_order = false;
    assert_eq!(a.to_string(), "fragment{6:12:False}");

    a.left_action = Box::new(DropAction::default().into());
    assert_eq!(a.to_string(), "fragment{6:12:False}(drop,)");

    a.right_action = Box::new(DropAction::default().into());
    assert_eq!(a.to_string(), "fragment{6:12:False}(drop,drop)");

    a.left_action = Box::new(SendAction::default().into());
    assert_eq!(a.to_string(), "fragment{6:12:False}(,drop)");
}

use geneva::actions::{Action, GenevaAction, TamperAction, TamperMode};
use geneva::errors::Error;
use geneva::Packet;

#[test]
fn send_result() {
    let a = SendAction::default();
    let pkt = Packet::new(vec![0, 1, 2, 3, 4]);

    let result = a.run(pkt.clone());
    assert!(result.is_ok());

    let result = result.unwrap();
    assert_eq!(result.len(), 1);
    assert_eq!(result[0], pkt);
}

#[test]
fn drop_result() {
    let a = DropAction::default();
    let pkt = Packet::new(vec![0, 1, 2, 3, 4]);

    let result = a.run(pkt);
    assert!(result.is_ok());

    let result = result.unwrap();
    assert_eq!(result.len(), 0);
}

#[test]
fn duplicate_send_result() {
    let a = DuplicateAction::new(SendAction::default().into(), SendAction::default().into());
    let pkt = Packet::new(vec![0, 1, 2, 3, 4]);

    let result = a.run(pkt.clone());
    assert!(result.is_ok());

    let result = result.unwrap();
    assert_eq!(result.len(), 2);

    assert_eq!(result, vec![pkt.clone(), pkt]);
}

/// The Internet checksum, written out independently of the library.
fn internet_checksum(bytes: &[u8], extra: u32) -> u16 {
    let mut sum: u32 = extra;
    let mut i = 0;
    while i + 1 < bytes.len() {
        sum += ((bytes[i] as u32) << 8) | bytes[i + 1] as u32;
        i += 2;
    }
    if i < bytes.len() {
        sum += (bytes[i] as u32) << 8;
    }
    while sum > 0xffff {
        sum = (sum & 0xffff) + (sum >> 16);
    }
    !(sum as u16)
}

/// An IPv4 packet that carries a TCP segment with the given flags and
/// payload, with both checksums set right.
fn tcp_packet(flags: u8, payload: &[u8]) -> Vec<u8> {
    let total = 40 + payload.len();
    let mut p = vec![
        0x45, 0x00, (total >> 8) as u8, total as u8, 0x12, 0x34, 0x40, 0x00, 64, 6, 0, 0, 10, 0, 0,
        1, 10, 0, 0, 2,
    ];
    p.extend_from_slice(&[
        0x30, 0x39, 0x00, 0x50, 0x00, 0x00, 0x03, 0xe8, 0, 0, 0, 0, 0x50, flags, 0x20, 0x00, 0, 0,
        0, 0,
    ]);
    p.extend_from_slice(payload);
    reseal(&mut p);
    p
}

/// Sets both checksums of a packet with a 20-byte IPv4 header right.
fn reseal(p: &mut Vec<u8>) {
    p[10] = 0;
    p[11] = 0;
    let c = internet_checksum(&p[..20], 0);
    p[10] = (c >> 8) as u8;
    p[11] = c as u8;
    if p[9] == 6 {
        p[36] = 0;
        p[37] = 0;
        let mut pseudo = 6 + (p.len() - 20) as u32;
        pseudo += ((p[12] as u32) << 8) + p[13] as u32 + ((p[14] as u32) << 8) + p[15] as u32;
        pseudo += ((p[16] as u32) << 8) + p[17] as u32 + ((p[18] as u32) << 8) + p[19] as u32;
        let c = internet_checksum(&p[20..], pseudo);
        p[36] = (c >> 8) as u8;
        p[37] = c as u8;
    }
}

fn tamper(protocol: &str, field: &str, mode: TamperMode, value: &str) -> TamperAction {
    TamperAction::new(
        protocol.to_string(),
        field.to_string(),
        value.to_string(),
        mode,
        SendAction::default().into(),
    )
    .unwrap()
}

fn run_one(a: &TamperAction, pkt: &[u8]) -> Vec<u8> {
    let out = a.run(Packet::new(pkt.to_vec())).unwrap();
    assert_eq!(out.len(), 1);
    out[0].as_slice().to_vec()
}

#[test]
fn tamper_str() {
    assert_eq!(
        tamper("TCP", "flags", TamperMode::Replace, "SA").to_string(),
        "tamper{TCP:flags:replace:SA}"
    );
    assert_eq!(
        tamper("TCP", "seq", TamperMode::Corrupt, "").to_string(),
        "tamper{TCP:seq:corrupt}"
    );
    assert_eq!(
        tamper("IP", "ttl", TamperMode::Add, "5").to_string(),
        "tamper{IP:ttl:add:5}"
    );
    assert_eq!(
        tamper("TCP", "load", TamperMode::Replace, "").to_string(),
        "tamper{TCP:load:replace:}"
    );
    let a = TamperAction::new(
        "TCP".to_string(),
        "flags".to_string(),
        "R".to_string(),
        TamperMode::Replace,
        DropAction::default().into(),
    )
    .unwrap();
    assert_eq!(a.to_string(), "tamper{TCP:flags:replace:R}(drop,)");
    assert_eq!(TamperMode::Replace.to_string(), "replace");
    assert_eq!(TamperMode::Corrupt.to_string(), "corrupt");
    assert_eq!(TamperMode::Add.to_string(), "add");
}

#[test]
fn tamper_replaces_a_number() {
    let pkt = tcp_packet(0x02, b"hello");
    let out = run_one(&tamper("IP", "ttl", TamperMode::Replace, "7"), &pkt);
    let mut want = pkt.clone();
    want[8] = 7;
    reseal(&mut want);
    assert_eq!(out, want);

    let out = run_one(&tamper("TCP", "dport", TamperMode::Replace, "8080"), &pkt);
    let mut want = pkt.clone();
    want[22] = 0x1f;
    want[23] = 0x90;
    reseal(&mut want);
    assert_eq!(out, want);
}

#[test]
fn tamper_replaces_part_of_a_byte() {
    let pkt = tcp_packet(0x12, b"");
    // the flags share their two bytes with the data offset
    let out = run_one(&tamper("tcp", "flags", TamperMode::Replace, "RA"), &pkt);
    let mut want = pkt.clone();
    want[32] = 0x50;
    want[33] = 0x14;
    reseal(&mut want);
    assert_eq!(out, want);

    let out = run_one(&tamper("IP", "flags", TamperMode::Replace, "1"), &pkt);
    let mut want = pkt.clone();
    want[6] = 0x20;
    reseal(&mut want);
    assert_eq!(out, want);
}

#[test]
fn tamper_replaces_an_address() {
    let pkt = tcp_packet(0x02, b"");
    let out = run_one(&tamper("IP", "src", TamperMode::Replace, "192.168.1.200"), &pkt);
    let mut want = pkt.clone();
    want[12..16].copy_from_slice(&[192, 168, 1, 200]);
    reseal(&mut want);
    assert_eq!(out, want);
}

#[test]
fn tamper_adds_with_wraparound() {
    let pkt = tcp_packet(0x02, b"");
    let out = run_one(&tamper("IP", "ttl", TamperMode::Add, "200"), &pkt);
    let mut want = pkt.clone();
    want[8] = ((64 + 200) % 256) as u8;
    reseal(&mut want);
    assert_eq!(out, want);

    let out = run_one(&tamper("TCP", "seq", TamperMode::Add, "4294967295"), &pkt);
    let mut want = pkt.clone();
    want[24..28].copy_from_slice(&999u32.to_be_bytes());
    reseal(&mut want);
    assert_eq!(out, want);
}

#[test]
fn tamper_replaces_the_payload_and_refits_the_length() {
    let pkt = tcp_packet(0x18, b"hello");
    let out = run_one(&tamper("TCP", "load", TamperMode::Replace, "goodbye!"), &pkt);
    assert_eq!(out, tcp_packet(0x18, b"goodbye!"));
    let out = run_one(&tamper("TCP", "load", TamperMode::Replace, ""), &pkt);
    assert_eq!(out, tcp_packet(0x18, b""));
}

#[test]
fn tamper_leaves_a_tampered_checksum_alone() {
    let pkt = tcp_packet(0x02, b"hello");
    let out = run_one(&tamper("TCP", "chksum", TamperMode::Replace, "4660"), &pkt);
    let mut want = pkt.clone();
    want[36] = 0x12;
    want[37] = 0x34;
    assert_eq!(out, want);
    let out = run_one(&tamper("IP", "chksum", TamperMode::Replace, "0"), &pkt);
    let mut want = pkt.clone();
    want[10] = 0;
    want[11] = 0;
    assert_eq!(out, want);
}

#[test]
fn tamper_corrupts_only_the_field() {
    let pkt = tcp_packet(0x02, b"hello");
    let out = run_one(&tamper("TCP", "seq", TamperMode::Corrupt, ""), &pkt);
    assert_eq!(out.len(), pkt.len());
    let mut want = pkt.clone();
    want[24..28].copy_from_slice(&out[24..28]);
    reseal(&mut want);
    assert_eq!(out, want);
    // the same packet is corrupted in the same way, another one in another
    assert_eq!(out, run_one(&tamper("TCP", "seq", TamperMode::Corrupt, ""), &pkt));
    let other = run_one(
        &tamper("TCP", "seq", TamperMode::Corrupt, ""),
        &tcp_packet(0x02, b"hellp"),
    );
    assert_ne!(out[24..28], other[24..28]);

    let out = run_one(&tamper("TCP", "load", TamperMode::Corrupt, ""), &pkt);
    assert_eq!(out.len(), pkt.len());
    assert_ne!(out[40..], pkt[40..]);
    let mut want = pkt.clone();
    want[40..].copy_from_slice(&out[40..]);
    reseal(&mut want);
    assert_eq!(out, want);
}

fn tamper_error(a: &TamperAction, pkt: &[u8]) -> Error {
    a.run(Packet::new(pkt.to_vec())).unwrap_err()
}

#[test]
fn tamper_failures() {
    let pkt = tcp_packet(0x02, b"hello");
    assert!(matches!(
        tamper_error(&tamper("UDP", "sport", TamperMode::Corrupt, ""), &pkt),
        Error::Parse(t) if t == "UDP"
    ));
    assert!(matches!(
        tamper_error(&tamper("TCP", "ttl", TamperMode::Corrupt, ""), &pkt),
        Error::Parse(t) if t == "ttl"
    ));
    assert!(matches!(
        tamper_error(&tamper("IP", "ttl", TamperMode::Replace, "256"), &pkt),
        Error::Parse(t) if t == "256"
    ));
    assert!(matches!(
        tamper_error(&tamper("IP", "ttl", TamperMode::Replace, "x"), &pkt),
        Error::Parse(t) if t == "x"
    ));
    assert!(matches!(
        tamper_error(&tamper("TCP", "flags", TamperMode::Replace, "SX"), &pkt),
        Error::Parse(t) if t == "SX"
    ));
    assert!(matches!(
        tamper_error(&tamper("IP", "dst", TamperMode::Replace, "10.0.0"), &pkt),
        Error::Parse(t) if t == "10.0.0"
    ));
    assert!(matches!(
        tamper_error(&tamper("TCP", "load", TamperMode::Add, "1"), &pkt),
        Error::Parse(t) if t == "1"
    ));
    assert!(matches!(
        tamper_error(&tamper("TCP", "options-mss", TamperMode::Replace, "1"), &pkt),
        Error::Malformed
    ));
    assert!(matches!(
        tamper_error(&tamper("TCP", "seq", TamperMode::Corrupt, ""), &[0x45, 0, 0, 20]),
        Error::Malformed
    ));
    let mut udp = pkt.clone();
    udp[9] = 17;
    assert!(matches!(
        tamper_error(&tamper("TCP", "seq", TamperMode::Corrupt, ""), &udp),
        Error::Malformed
    ));
}

fn fragment_with(protocol: u16, size: u16, in_order: bool) -> FragmentAction {
    FragmentAction::new(
        protocol,
        size,
        in_order,
        0,
        SendAction::default().into(),
        SendAction::default().into(),
    )
    .unwrap()
}

fn run_two(a: &FragmentAction, pkt: &[u8]) -> (Vec<u8>, Vec<u8>) {
    let out = a.run(Packet::new(pkt.to_vec())).unwrap();
    assert_eq!(out.len(), 2);
    (out[0].as_slice().to_vec(), out[1].as_slice().to_vec())
}

#[test]
fn fragment_cuts_a_tcp_segment() {
    let pkt = tcp_packet(0x18, b"hello, world");
    let (first, second) = run_two(&fragment_with(6, 5, true), &pkt);
    assert_eq!(first, tcp_packet(0x18, b"hello"));
    let mut want = tcp_packet(0x18, b", world");
    want[24..28].copy_from_slice(&1005u32.to_be_bytes());
    reseal(&mut want);
    assert_eq!(second, want);
}

#[test]
fn fragment_out_of_order_gives_the_second_piece_first() {
    let pkt = tcp_packet(0x18, b"hello, world");
    let (a, b) = run_two(&fragment_with(6, 5, true), &pkt);
    let (c, d) = run_two(&fragment_with(6, 5, false), &pkt);
    assert_eq!((a, b), (d, c));
}

#[test]
fn fragment_beyond_the_payload_cuts_at_its_end() {
    let pkt = tcp_packet(0x18, b"hello");
    let (first, second) = run_two(&fragment_with(6, 100, true), &pkt);
    assert_eq!(first, pkt);
    let mut want = tcp_packet(0x18, b"");
    want[24..28].copy_from_slice(&1005u32.to_be_bytes());
    reseal(&mut want);
    assert_eq!(second, want);
}

#[test]
fn fragment_cuts_an_ip_packet() {
    let pkt = tcp_packet(0x18, b"0123456789abcdef");
    // 36 bytes of IP payload: 20 of TCP header and 16 of data
    let (first, second) = run_two(&fragment_with(4, 8, true), &pkt);
    let mut want = pkt[..28].to_vec();
    want[2] = 0;
    want[3] = 28;
    want[6] = 0x60;
    want[10] = 0;
    want[11] = 0;
    let c = internet_checksum(&want[..20], 0);
    want[10] = (c >> 8) as u8;
    want[11] = c as u8;
    assert_eq!(first, want);
    let mut want = pkt[..20].to_vec();
    want.extend_from_slice(&pkt[28..]);
    want[2] = 0;
    want[3] = 48;
    want[6] = 0x40;
    want[7] = 1;
    want[10] = 0;
    want[11] = 0;
    let c = internet_checksum(&want[..20], 0);
    want[10] = (c >> 8) as u8;
    want[11] = c as u8;
    assert_eq!(second, want);
}

#[test]
fn fragment_failures() {
    let pkt = tcp_packet(0x18, b"hello, world");
    let fail = |a: FragmentAction, p: &[u8]| a.run(Packet::new(p.to_vec())).unwrap_err();
    assert!(matches!(fail(fragment_with(17, 5, true), &pkt), Error::Parse(t) if t == "17"));
    assert!(matches!(fail(fragment_with(4, 5, true), &pkt), Error::Parse(t) if t == "5"));
    assert!(matches!(fail(fragment_with(6, 5, true), &[1, 2, 3]), Error::Malformed));
    assert!(matches!(fail(fragment_with(4, 8, true), &[1, 2, 3]), Error::Malformed));
    let mut far = pkt.clone();
    far[6] = 0x1f;
    far[7] = 0xff;
    assert!(matches!(fail(fragment_with(4, 8, true), &far), Error::Malformed));
}

#[test]
fn trees_run_from_the_root_down() {
    // duplicate(tamper{IP:ttl:replace:1}(fragment{6:2:False},),drop)
    let inner = fragment_with(6, 2, false);
    let t = TamperAction::new(
        "IP".to_string(),
        "ttl".to_string(),
        "1".to_string(),
        TamperMode::Replace,
        inner.into(),
    )
    .unwrap();
    let a: GenevaAction = DuplicateAction::new(t.into(), DropAction::default().into()).into();
    assert_eq!(a.to_string(), "duplicate(tamper{IP:ttl:replace:1}(fragment{6:2:False},),drop)");
    let pkt = tcp_packet(0x18, b"hi!");
    let out = a.run(Packet::new(pkt.clone())).unwrap();
    assert_eq!(out.len(), 2);
    let mut first = tcp_packet(0x18, b"hi");
    first[8] = 1;
    reseal(&mut first);
    let mut second = tcp_packet(0x18, b"!");
    second[8] = 1;
    second[24..28].copy_from_slice(&1002u32.to_be_bytes());
    reseal(&mut second);
    assert_eq!(out[0].as_slice(), &second[..]);
    assert_eq!(out[1].as_slice(), &first[..]);
    // the trait gives the same
    let again = Action::run(&a, Packet::new(pkt)).unwrap();
    assert_eq!(again, out);
    // a copy is a tree of its own with the same content
    assert_eq!(a.clone().to_string(), a.to_string());
}
