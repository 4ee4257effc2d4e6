use geneva::actions::{ActionTree, DropAction, DuplicateAction, SendAction};
use geneva::errors::Error;
use geneva::triggers::{GenevaTrigger, IPField, IPTrigger};
use geneva::{parse_strategy, Direction, Packet, Strategy};

fn packet(ttl: u8) -> Packet {
    let mut p = vec![0x45, 0, 0, 24, 0, 0, 0, 0, ttl, 17, 0, 0, 10, 0, 0, 1, 10, 0, 0, 2];
    p.extend_from_slice(b"data");
    Packet::new(p)
}

#[test]
fn no_rules_let_the_packet_pass() {
    let mut s = Strategy::default();
    assert_eq!(s.to_string(), r#"\/"#);
    for d in [Direction::Inbound, Direction::Outbound] {
        assert_eq!(s.apply(packet(1), d).unwrap(), vec![packet(1)]);
    }
    let mut s = Strategy { outbound: Some(vec![]), inbound: Some(vec![]) };
    assert_eq!(s.to_string(), r#"\/"#);
    for d in [Direction::Inbound, Direction::Outbound] {
        assert_eq!(s.apply(packet(1), d).unwrap(), vec![packet(1)]);
    }
    assert_eq!(Direction::Inbound.to_string(), "inbound");
    assert_eq!(Direction::Outbound.to_string(), "outbound");
}

#[test]
fn each_direction_has_its_own_rules() {
    let mut s = parse_strategy(r#"[IP:ttl:1]-drop-| \/ [IP:ttl:1]-duplicate-|"#).unwrap();
    assert_eq!(s.apply(packet(1), Direction::Outbound).unwrap(), vec![]);
    assert_eq!(s.apply(packet(1), Direction::Inbound).unwrap(), vec![packet(1), packet(1)]);
    assert_eq!(s.apply(packet(2), Direction::Outbound).unwrap(), vec![packet(2)]);
    assert_eq!(s.apply(packet(2), Direction::Inbound).unwrap(), vec![packet(2)]);
}

#[test]
fn two_rules_that_drop_leave_nothing() {
    let rule = || ActionTree {
        trigger: GenevaTrigger::IP(IPTrigger::new(IPField::Payload, String::new(), 0, 0)),
        root_action: Box::new(DropAction::default().into()),
    };
    let mut s = Strategy { outbound: Some(vec![rule(), rule()]), inbound: None };
    assert_eq!(s.apply(packet(1), Direction::Outbound).unwrap(), vec![]);
}

#[test]
fn every_rule_sees_the_packet_as_it_came_in() {
    let mut s = parse_strategy(
        r#"[IP:ttl:9]-tamper{IP:ttl:replace:1}-| [IP:ttl:9]-duplicate-| [IP:ttl:1]-drop-| [IP:ttl:9]-drop-| \/"#,
    )
    .unwrap();
    let out = s.apply(packet(9), Direction::Outbound).unwrap();
    // the first rule's change is seen by no other rule: the third does not fire
    assert_eq!(out.len(), 4);
    assert_eq!(out[0].as_slice()[8], 1);
    assert_eq!(out[1], packet(9));
    assert_eq!(out[2], packet(9));
    assert_eq!(out[3], packet(9));
}

#[test]
fn budgets_are_kept_from_packet_to_packet() {
    let mut s = parse_strategy(r#"[IP:ttl:9:2]-drop-| \/"#).unwrap();
    let counts: Vec<usize> = (0..4)
        .map(|_| s.apply(packet(9), Direction::Outbound).unwrap().len())
        .collect();
    assert_eq!(counts, [0, 0, 1, 1]);
    // what is written is the budget, not what is left of it
    assert_eq!(s.to_string(), r#"[IP:ttl:9:2]-drop-| \/"#);
}

#[test]
fn the_first_failure_ends_the_run() {
    let mut s = parse_strategy(
        r#"[IP:ttl:9:1]-duplicate-| [IP:ttl:9:1]-fragment{6:1:True}-| [IP:ttl:9:1]-drop-| \/"#,
    )
    .unwrap();
    // the packet carries no TCP, so the second rule cannot cut it
    assert!(matches!(s.apply(packet(9), Direction::Outbound), Err(Error::Malformed)));
    // the first two triggers have fired and are spent; the third has not seen the packet
    assert_eq!(s.apply(packet(9), Direction::Outbound).unwrap(), vec![packet(9), packet(9)]);
    assert_eq!(s.apply(packet(9), Direction::Outbound).unwrap().len(), 3);
}

#[test]
fn rules_built_by_hand_are_written_like_parsed_ones() {
    let rule = ActionTree {
        trigger: GenevaTrigger::IP(IPTrigger::new(IPField::TTL, "64".to_string(), 2, 0)),
        root_action: Box::new(
            DuplicateAction::new(SendAction::default().into(), DropAction::default().into()).into(),
        ),
    };
    assert_eq!(rule.to_string(), "[IP:ttl:64:2]-duplicate(,drop)-|");
    let s = Strategy { outbound: None, inbound: Some(vec![rule]) };
    let text = s.to_string();
    assert_eq!(text, r#"\/ [IP:ttl:64:2]-duplicate(,drop)-|"#);
    assert_eq!(parse_strategy(&text).unwrap().to_string(), text);
}

#[test]
fn error_messages() {
    assert_eq!(Error::Parse("nope".to_string()).to_string(), "parse error: \"nope\"");
    assert_eq!(Error::Malformed.to_string(), "malformed packet");
    assert_eq!(Error::syntax(12).to_string(), "syntax error at offset 12");
    assert_eq!(Error::syntax(0).clone().to_string(), "syntax error at offset 0");
}

#[test]
fn texts_are_read_with_parse() {
    let s: Strategy = r#"[IP:ttl:1]-drop-| \/"#.parse().unwrap();
    assert_eq!(s.to_string(), r#"[IP:ttl:1]-drop-| \/"#);
    assert!(matches!("[".parse::<Strategy>(), Err(Error::Syntax(_))));
    assert_eq!("ttl".parse::<IPField>().unwrap(), IPField::TTL);
    assert!(matches!("ttl".parse::<geneva::triggers::TCPField>(), Err(Error::Parse(_))));
}

#[test]
fn bytes_of_a_packet_can_be_set() {
    let mut p = Packet::new(vec![1, 2, 3]);
    assert!(p.set(1, 9));
    assert!(!p.set(3, 9));
    assert_eq!(p.as_slice(), &[1, 9, 3]);
}

#[test]
fn packets_are_their_bytes() {
    let p = Packet::new(vec![1, 2, 3]);
    assert_eq!(p.as_slice(), &[1, 2, 3]);
    assert_eq!(p.len(), 3);
    assert_eq!(p.clone(), p);
    assert_ne!(p, Packet::new(vec![1, 2, 4]));
    assert_ne!(p, Packet::new(vec![1, 2]));
    assert_eq!(Packet::new(vec![]), Packet::new(vec![]));
    assert_eq!(p.into_bytes(), vec![1, 2, 3]);
}
