use geneva::actions::{
    DropAction, DuplicateAction, FragmentAction, GenevaAction, SendAction, TamperAction,
    TamperMode,
};
use geneva::errors::Error;
use geneva::parse_strategy;
use geneva::triggers::{GenevaTrigger, IPField, IPTrigger, TCPField, TCPTrigger, Trigger};

#[test]
fn parse_empty_strategy() {
    let result = parse_strategy(r#"\/"#);
    assert!(result.is_ok());
}

#[test]
fn parse_simple_strategy() {
    let s = r#"[TCP:flags:SA]-drop-| \/"#;
    let result = parse_strategy(s);
    assert!(result.is_ok());

    let strategy = result.unwrap();

    assert_eq!(strategy.to_string(), s);

    assert!(strategy.inbound.is_none());
    assert!(strategy.outbound.is_some());

    let outbound = strategy.outbound.unwrap();
    assert_eq!(outbound.len(), 1);

    let trigger = &outbound[0].trigger;
    assert!(matches!(trigger, GenevaTrigger::TCP(_)));

    let trigger = match trigger {
        GenevaTrigger::TCP(t) => t,
        _ => unreachable!(),
    };

    assert_eq!(trigger.protocol(), "TCP");
    assert_eq!(trigger.field(), "flags");
    assert_eq!(trigger.value(), "SA");
    assert_eq!(trigger.gas(), 0);

    let action = &outbound[0].root_action;
    assert!(matches!(**action, GenevaAction::Drop(_)));
}

#[test]
fn canonical_texts_read_back_as_written() {
    for s in [
        r#"\/"#,
        r#"[TCP:flags:SA]-drop-| \/"#,
        r#"\/ [IP:ttl:64]--|"#,
        r#"[TCP:flags:S:3]-duplicate(,drop)-| [IP:ttl:64]-fragment{6:12:False}(drop,)-| \/ [TCP:flags:R]-drop-|"#,
        r#"[TCP:flags:S]-duplicate(tamper{TCP:flags:replace:SA},)-| \/ [TCP:flags:R]-drop-| [IP:tos:0]-tamper{IP:ttl:add:5}(duplicate,)-|"#,
        r#"[TCP:load:]-tamper{tcp:load:replace:}-| \/"#,
        r#"[TCP:options-mss:1460]-tamper{TCP:seq:corrupt}(fragment{4:8:True}(,drop),)-| \/"#,
    ] {
        let parsed = parse_strategy(s);
        assert!(parsed.is_ok(), "{}", s);
        assert_eq!(parsed.unwrap().to_string(), s);
    }
}

#[test]
fn lenient_texts_come_back_in_canonical_form() {
    for (s, canonical) in [
        ("  \\/  ", r#"\/"#),
        ("[tcp:flags:SA]-send-|\\/", r#"[TCP:flags:SA]--| \/"#),
        ("[TCP:flags:SA]-duplicate(,)-| \\/", r#"[TCP:flags:SA]-duplicate-| \/"#),
        ("[IP:TOS:1:007]-duplicate(send,send)-|\n\\/\n[Ip:ttl:1:0]-drop-|\n", r#"[IP:tos:1:7]-duplicate-| \/ [IP:ttl:1]-drop-|"#),
        ("[TCP:flags:S]-tamper{TCP:seq:corrupt}(,)-|[TCP:flags:A]-fragment{006:012:True}(,)-| \\/", r#"[TCP:flags:S]-tamper{TCP:seq:corrupt}-| [TCP:flags:A]-fragment{6:12:True}-| \/"#),
    ] {
        let parsed = parse_strategy(s);
        assert!(parsed.is_ok(), "{}", s);
        assert_eq!(parsed.unwrap().to_string(), canonical);
    }
}

fn syntax_at(s: &str) -> String {
    match parse_strategy(s) {
        Err(Error::Syntax(message)) => message,
        other => panic!("{:?}", other),
    }
}

fn unknown_in(s: &str) -> String {
    match parse_strategy(s) {
        Err(Error::Parse(token)) => token,
        other => panic!("{:?}", other),
    }
}

#[test]
fn broken_texts_report_the_offset() {
    assert_eq!(syntax_at(""), "syntax error at offset 0");
    assert_eq!(syntax_at("x"), "syntax error at offset 0");
    assert_eq!(syntax_at(r#"\/ x"#), "syntax error at offset 3");
    assert_eq!(syntax_at(r#"[TCP:flags]-drop-| \/"#), "syntax error at offset 10");
    assert_eq!(syntax_at(r#"[TCP:flags:SA:]-drop-| \/"#), "syntax error at offset 14");
    assert_eq!(syntax_at(r#"[TCP:flags:SA:1x]-drop-| \/"#), "syntax error at offset 15");
    assert_eq!(syntax_at(r#"[TCP:flags:SA]-drop| \/"#), "syntax error at offset 19");
    assert_eq!(syntax_at(r#"[TCP:flags:SA]-duplicate(drop)-| \/"#), "syntax error at offset 29");
    assert_eq!(syntax_at(r#"[TCP:flags:SA]-duplicate(drop,-| \/"#), "syntax error at offset 30");
    assert_eq!(syntax_at(r#"[TCP:flags:SA]-fragment{6:12:true}-| \/"#), "syntax error at offset 29");
    assert_eq!(syntax_at(r#"[TCP:flags:SA]-fragment{:12:True}-| \/"#), "syntax error at offset 24");
    assert_eq!(syntax_at(r#"[TCP:flags:SA]-tamper{TCP:seq:replace}-| \/"#), "syntax error at offset 37");
    assert_eq!(syntax_at(r#"[TCP:flags:SA]-tamper{TCP:seq:swap:1}-| \/"#), "syntax error at offset 30");
    assert_eq!(syntax_at(r#"[TCP:flags:SA]-tamper{TCP:seq:add:1}(drop)-| \/"#), "syntax error at offset 41");
    assert_eq!(syntax_at(r#"[TCP:flags:SA]-drop-|"#), "syntax error at offset 21");
}

#[test]
fn unknown_tokens_are_handed_back() {
    assert_eq!(unknown_in(r#"[UDP:flags:SA]-drop-| \/"#), "UDP");
    assert_eq!(unknown_in(r#"[TCP:ttl:SA]-drop-| \/"#), "ttl");
    assert_eq!(unknown_in(r#"[IP:sport:80]-drop-| \/"#), "sport");
    assert_eq!(unknown_in(r#"[TCP:flags:SA:99999999999999999999999]-drop-| \/"#), "99999999999999999999999");
    assert_eq!(unknown_in(r#"[TCP:flags:SA]-fragment{65536:1:True}-| \/"#), "65536");
    assert_eq!(unknown_in(r#"[TCP:flags:SA]-fragment{6:70000:True}-| \/"#), "70000");
    assert_eq!(unknown_in(r#"[TCP:flags:SA]-tamper{TCP:ttl:corrupt}-| \/"#), "ttl");
    assert_eq!(unknown_in(r#"[TCP:flags:SA]-tamper{ICMP:ttl:corrupt}-| \/"#), "ICMP");
    // the first unknown token counts, and a break anywhere goes before it
    assert_eq!(unknown_in(r#"[TCP:nope:SA]-drop-| \/ [XX:flags:R]-drop-|"#), "nope");
    assert_eq!(syntax_at(r#"[TCP:nope:SA]-drop-| \/ [XX:flags:R]-drop"#), "syntax error at offset 41");
}

/// A stream of numbers to build sample strategies from.
struct Dice(u64);

impl Dice {
    fn roll(&mut self, sides: u64) -> u64 {
        self.0 = self.0.wrapping_mul(6364136223846793005).wrapping_add(1442695040888963407);
        (self.0 >> 33) % sides
    }
}

fn sample_action(dice: &mut Dice, depth: u32) -> GenevaAction {
    let kinds = if depth == 0 { 2 } else { 5 };
    match dice.roll(kinds) {
        0 => SendAction::default().into(),
        1 => DropAction::default().into(),
        2 => DuplicateAction::new(sample_action(dice, depth - 1), sample_action(dice, depth - 1))
            .into(),
        3 => FragmentAction::new(
            dice.roll(65536) as u16,
            dice.roll(65536) as u16,
            dice.roll(2) == 0,
            0,
            sample_action(dice, depth - 1),
            sample_action(dice, depth - 1),
        )
        .unwrap()
        .into(),
        _ => {
            let mode = [TamperMode::Replace, TamperMode::Corrupt, TamperMode::Add]
                [dice.roll(3) as usize];
            let (protocol, field) =
                [("TCP", "seq"), ("tcp", "options-mss"), ("IP", "ttl"), ("Ip", "load")]
                    [dice.roll(4) as usize];
            let value = ["", "1", "SA", "a:b", "10.0.0.1", "(,)"][dice.roll(6) as usize];
            TamperAction::new(
                protocol.to_string(),
                field.to_string(),
                value.to_string(),
                mode,
                sample_action(dice, depth - 1),
            )
            .unwrap()
            .into()
        }
    }
}

fn sample_forest(dice: &mut Dice) -> Option<Vec<geneva::actions::ActionTree>> {
    let n = dice.roll(4);
    if n == 0 {
        return None;
    }
    let mut forest = vec![];
    for _ in 0..n {
        let value = ["", "S", "80", "10.0.0.1", "GET /", "a b-c"][dice.roll(6) as usize];
        let gas = [0, 0, 1, 7, 1000][dice.roll(5) as usize];
        let trigger = if dice.roll(2) == 0 {
            let field = [IPField::TTL, IPField::TOS, IPField::Payload, IPField::SourceAddress]
                [dice.roll(4) as usize];
            GenevaTrigger::IP(IPTrigger::new(field, value.to_string(), gas, 0))
        } else {
            let field = [TCPField::Flags, TCPField::Sequence, TCPField::OptionAltChecksumOpt]
                [dice.roll(3) as usize];
            GenevaTrigger::TCP(TCPTrigger::new(field, value.to_string(), gas).unwrap())
        };
        forest.push(geneva::actions::ActionTree {
            trigger,
            root_action: Box::new(sample_action(dice, 3)),
        });
    }
    Some(forest)
}

#[test]
fn written_strategies_read_back() {
    let mut dice = Dice(2024);
    for _ in 0..300 {
        let strategy = geneva::Strategy {
            outbound: sample_forest(&mut dice),
            inbound: sample_forest(&mut dice),
        };
        let text = strategy.to_string();
        let read = parse_strategy(&text);
        assert!(read.is_ok(), "{}", text);
        let read = read.unwrap();
        assert_eq!(read.to_string(), text);
        assert_eq!(read.outbound.is_some(), strategy.outbound.is_some());
        assert_eq!(read.inbound.is_some(), strategy.inbound.is_some());
        assert_eq!(
            read.outbound.map_or(0, |f| f.len()),
            strategy.outbound.map_or(0, |f| f.len())
        );
    }
}
