//! Strategies: the rules for outbound packets and the rules for inbound ones.
//!
//! A strategy is written as
//!
//! ```text
//!   outbound-rules \/ inbound-rules
//! ```
//!
//! where each side is a list of rules, a "forest", and may be empty. A rule is
//! written `[trigger]-action-|`. For example
//!
//! ```text
//!   [TCP:flags:S]-duplicate(tamper{TCP:flags:replace:SA},)-| \/ [TCP:flags:R]-drop-|
//! ```
//!
//! answers an outbound SYN with the SYN itself behind a copy whose flags
//! read SYN+ACK, and discards inbound resets.

use crate::actions::{join, joined, ran, ActionModel, ActionTree, RuleModel};
use crate::errors::{Error, Fault};
use crate::packet::Packet;
use vstd::prelude::*;
use vstd::string::StringExecFns;

verus! {

/// The direction in which a packet travels.
#[derive(Debug, Clone, Copy, PartialEq, Eq, Structural)]
pub enum Direction {
    /// Towards this host.
    Inbound,
    /// Away from this host.
    Outbound,
}

impl Direction {
    /// The name of the direction.
    pub open spec fn name(self) -> Seq<char> {
        match self {
            Direction::Inbound => "inbound"@,
            Direction::Outbound => "outbound"@,
        }
    }

    /// The name of the direction.
    pub fn to_string(&self) -> (name: String)
        ensures
            name@ == self.name(),
    {
        match self {
            Direction::Inbound => String::from_str("inbound"),
            Direction::Outbound => String::from_str("outbound"),
        }
    }
}

/// An ordered list of rules.
pub type Forest = Vec<ActionTree>;

/// The mathematical content of a list of rules.
pub open spec fn rules_of(forest: Seq<ActionTree>) -> Seq<RuleModel> {
    Seq::new(forest.len(), |i: int| forest[i]@)
}

/// The mathematical content of a strategy.
pub struct StrategyModel {
    pub outbound: Option<Seq<RuleModel>>,
    pub inbound: Option<Seq<RuleModel>>,
}

/// The rules of one side of a strategy; none where the side is absent.
pub open spec fn side(forest: Option<Seq<RuleModel>>) -> Seq<RuleModel> {
    match forest {
        Some(rules) => rules,
        None => Seq::empty(),
    }
}

/// The outbound side as a strategy writes it: a blank behind every rule.
pub open spec fn outbound_text(rules: Seq<RuleModel>) -> Seq<char>
    decreases rules.len(),
{
    if rules.len() == 0 {
        Seq::empty()
    } else {
        rules[0].text() + seq![' '] + outbound_text(rules.drop_first())
    }
}

/// The inbound side as a strategy writes it: a blank before every rule.
pub open spec fn inbound_text(rules: Seq<RuleModel>) -> Seq<char>
    decreases rules.len(),
{
    if rules.len() == 0 {
        Seq::empty()
    } else {
        seq![' '] + rules[0].text() + inbound_text(rules.drop_first())
    }
}

impl RuleModel {
    /// What the rule makes of its own copy of a packet: what its action tree
    /// makes of it where the trigger fires, else the packet itself.
    #[verifier::opaque]
    pub open spec fn share(self, pkt: Seq<u8>) -> Result<Seq<Seq<u8>>, Fault> {
        if self.trigger.fires(pkt) {
            self.action.run(pkt)
        } else {
            Ok(seq![pkt])
        }
    }

    /// The rule after it has seen a packet: its trigger may have fired.
    #[verifier::opaque]
    pub open spec fn seen(self, pkt: Seq<u8>) -> RuleModel {
        RuleModel { trigger: self.trigger.after(pkt), action: self.action }
    }
}

/// What the first `n` rules of a forest make of a packet: the shares of the
/// rules one behind the other, each made of the packet as it came in; or the
/// failure of the first rule that fails.
pub open spec fn shares(rules: Seq<RuleModel>, pkt: Seq<u8>, n: int) -> Result<
    Seq<Seq<u8>>,
    Fault,
>
    decreases n,
{
    if n <= 0 {
        Ok(Seq::empty())
    } else {
        joined(shares(rules, pkt, n - 1), rules[n - 1].share(pkt))
    }
}

/// The rules of a forest after the forest was applied to a packet: every
/// rule has seen the packet, up to and with the first rule that fails.
pub open spec fn forest_after(rules: Seq<RuleModel>, pkt: Seq<u8>) -> Seq<RuleModel> {
    Seq::new(
        rules.len(),
        |i: int|
            if shares(rules, pkt, i) is Ok {
                rules[i].seen(pkt)
            } else {
                rules[i]
            },
    )
}

/// One side of a strategy after it was applied to a packet.
pub open spec fn side_after(forest: Option<Seq<RuleModel>>, pkt: Seq<u8>) -> Option<
    Seq<RuleModel>,
> {
    match forest {
        Some(rules) => Some(forest_after(rules, pkt)),
        None => None,
    }
}

/// What one side of a strategy makes of a packet: the packet itself where
/// the side has no rules.
pub open spec fn side_output(forest: Option<Seq<RuleModel>>, pkt: Seq<u8>) -> Result<
    Seq<Seq<u8>>,
    Fault,
> {
    if side(forest).len() == 0 {
        Ok(seq![pkt])
    } else {
        shares(side(forest), pkt, side(forest).len() as int)
    }
}

/// A strategy without rules for a direction lets every packet pass, and
/// stays as it is.
pub proof fn law_no_rules_pass(strategy: StrategyModel, pkt: Seq<u8>, direction: Direction)
    requires
        match direction {
            Direction::Inbound => strategy.inbound is None,
            Direction::Outbound => strategy.outbound is None,
        },
    ensures
        strategy.output(pkt, direction) == Ok::<_, Fault>(seq![pkt]),
        strategy.after(pkt, direction) == strategy,
{
}

/// Rules do not chain: each rule of a forest sees the packet as it came in,
/// and the forest gives the shares of its rules one behind the other. Here
/// for a forest of two.
pub proof fn law_rules_are_independent(first: RuleModel, second: RuleModel, pkt: Seq<u8>)
    ensures
        shares(seq![first, second], pkt, 2) == joined(first.share(pkt), second.share(pkt)),
{
    let rules = seq![first, second];
    assert(shares(rules, pkt, 0) == Ok::<_, Fault>(Seq::<Seq<u8>>::empty()));
    assert(shares(rules, pkt, 1) == joined(shares(rules, pkt, 0), first.share(pkt)));
    assert(shares(rules, pkt, 2) == joined(shares(rules, pkt, 1), second.share(pkt)));
    match first.share(pkt) {
        Ok(a) => {
            assert(Seq::<Seq<u8>>::empty() + a =~= a);
        },
        Err(_) => {},
    }
}

/// Two rules that both fire and both drop leave nothing of a packet: each
/// drops its own copy.
pub proof fn law_two_drops_leave_nothing(first: RuleModel, second: RuleModel, pkt: Seq<u8>)
    requires
        first.trigger.fires(pkt),
        second.trigger.fires(pkt),
        first.action == ActionModel::Drop,
        second.action == ActionModel::Drop,
    ensures
        shares(seq![first, second], pkt, 2) == Ok::<_, Fault>(Seq::<Seq<u8>>::empty()),
{
    reveal(RuleModel::share);
    law_rules_are_independent(first, second, pkt);
    assert(Seq::<Seq<u8>>::empty() + Seq::<Seq<u8>>::empty() =~= Seq::<Seq<u8>>::empty());
}

/// Every rule of the list is one that a strategy can write down in full.
pub open spec fn all_canonical(rules: Seq<RuleModel>) -> bool {
    forall|i: int| 0 <= i < rules.len() ==> (#[trigger] rules[i]).canonical()
}

impl StrategyModel {
    /// What the strategy makes of a packet that travels in a direction.
    pub open spec fn output(self, pkt: Seq<u8>, direction: Direction) -> Result<
        Seq<Seq<u8>>,
        Fault,
    > {
        match direction {
            Direction::Inbound => side_output(self.inbound, pkt),
            Direction::Outbound => side_output(self.outbound, pkt),
        }
    }

    /// The strategy after it was applied to a packet that travels in a
    /// direction: the triggers of that side may have fired.
    pub open spec fn after(self, pkt: Seq<u8>, direction: Direction) -> StrategyModel {
        match direction {
            Direction::Inbound => StrategyModel {
                inbound: side_after(self.inbound, pkt),
                ..self
            },
            Direction::Outbound => StrategyModel {
                outbound: side_after(self.outbound, pkt),
                ..self
            },
        }
    }

    /// The strategy is one that its written form gives back: each of its
    /// rules can be written down in full, and a side without rules is absent.
    pub open spec fn canonical(self) -> bool {
        &&& self.outbound matches Some(rules) ==> rules.len() > 0
        &&& self.inbound matches Some(rules) ==> rules.len() > 0
        &&& all_canonical(side(self.outbound))
        &&& all_canonical(side(self.inbound))
    }

    /// The strategy in its canonical written form.
    pub open spec fn text(self) -> Seq<char> {
        outbound_text(side(self.outbound)) + seq!['\\', '/'] + inbound_text(side(self.inbound))
    }
}

/// The rules to apply to outbound and to inbound packets.
#[derive(Debug)]
pub struct Strategy {
    /// The rules for packets that leave; `None` lets them pass.
    pub outbound: Option<Forest>,
    /// The rules for packets that arrive; `None` lets them pass.
    pub inbound: Option<Forest>,
}

impl View for Strategy {
    type V = StrategyModel;

    open spec fn view(&self) -> StrategyModel {
        StrategyModel {
            outbound: match self.outbound {
                Some(forest) => Some(rules_of(forest@)),
                None => None,
            },
            inbound: match self.inbound {
                Some(forest) => Some(rules_of(forest@)),
                None => None,
            },
        }
    }
}

impl Default for Strategy {
    /// The strategy without rules: every packet passes.
    fn default() -> (s: Strategy)
        ensures
            s@ == (StrategyModel { outbound: None, inbound: None }),
    {
        Strategy { outbound: None, inbound: None }
    }
}

/// Appends the outbound side of a strategy.
fn push_outbound(out: &mut String, forest: &Forest)
    ensures
        final(out)@ == old(out)@ + outbound_text(rules_of(forest@)),
{
    let ghost rules = rules_of(forest@);
    assert(rules.skip(0) == rules);
    let mut i: usize = 0;
    while i < forest.len()
        invariant
            i <= forest.len(),
            rules == rules_of(forest@),
            out@ + outbound_text(rules.skip(i as int)) == old(out)@ + outbound_text(rules),
        decreases forest.len() - i,
    {
        let rule = forest[i].to_string();
        proof {
            assert(rules.skip(i as int).drop_first() == rules.skip(i + 1));
            assert(rules.skip(i as int)[0] == forest@[i as int]@);
            let rest = outbound_text(rules.skip(i + 1));
            assert(out@ + (rule@ + seq![' '] + rest) == (out@ + rule@).push(' ') + rest);
        }
        out.append(rule.as_str());
        out.push(' ');
        i += 1;
    }
    assert(rules.skip(i as int) == Seq::<RuleModel>::empty());
    assert(out@ + Seq::<char>::empty() == out@);
}

/// Appends the inbound side of a strategy.
fn push_inbound(out: &mut String, forest: &Forest)
    ensures
        final(out)@ == old(out)@ + inbound_text(rules_of(forest@)),
{
    let ghost rules = rules_of(forest@);
    assert(rules.skip(0) == rules);
    let mut i: usize = 0;
    while i < forest.len()
        invariant
            i <= forest.len(),
            rules == rules_of(forest@),
            out@ + inbound_text(rules.skip(i as int)) == old(out)@ + inbound_text(rules),
        decreases forest.len() - i,
    {
        let rule = forest[i].to_string();
        proof {
            assert(rules.skip(i as int).drop_first() == rules.skip(i + 1));
            assert(rules.skip(i as int)[0] == forest@[i as int]@);
            let rest = inbound_text(rules.skip(i + 1));
            assert(out@ + (seq![' '] + rule@ + rest) == out@.push(' ') + rule@ + rest);
        }
        out.push(' ');
        out.append(rule.as_str());
        i += 1;
    }
    assert(rules.skip(i as int) == Seq::<RuleModel>::empty());
    assert(out@ + Seq::<char>::empty() == out@);
}

/// Applies one rule to its copy of a packet.
fn apply_rule(rule: &mut ActionTree, pkt: Packet) -> (out: Result<Vec<Packet>, Error>)
    ensures
        final(rule)@ == old(rule)@.seen(pkt@),
        ran(out, old(rule)@.share(pkt@)),
{
    reveal(RuleModel::share);
    reveal(RuleModel::seen);
    if rule.matches(&pkt) {
        rule.apply(pkt)
    } else {
        let mut own: Vec<Packet> = Vec::new();
        own.push(pkt);
        assert(own.deep_view() =~= seq![pkt@]);
        Ok(own)
    }
}

/// The rules of a forest are as [`forest_after`] says once the first `i`
/// rules have seen the packet, the rules behind them have not, and either
/// all rules have been reached or the last of the `i` has failed.
proof fn lemma_forest_after(
    rules: Seq<RuleModel>,
    now: Seq<RuleModel>,
    pkt: Seq<u8>,
    i: int,
)
    requires
        0 <= i <= rules.len(),
        now.len() == rules.len(),
        forall|j: int| 0 <= j < i ==> #[trigger] now[j] == rules[j].seen(pkt),
        forall|j: int| i <= j < rules.len() ==> #[trigger] now[j] == rules[j],
        i > 0 ==> shares(rules, pkt, i - 1) is Ok,
        i == rules.len() || shares(rules, pkt, i) is Err,
    ensures
        now == forest_after(rules, pkt),
{
    assert forall|j: int| 0 <= j < rules.len() implies now[j] == forest_after(rules, pkt)[j] by {
        if j < i {
            lemma_success_before(rules, pkt, j, i - 1);
        } else {
            lemma_failure_stays(rules, pkt, i, j);
        }
    }
    assert(now =~= forest_after(rules, pkt));
}

/// Applies the rules of a forest to a packet, each to a copy of its own.
fn apply_forest(forest: &mut Forest, pkt: Packet) -> (out: Result<Vec<Packet>, Error>)
    ensures
        rules_of(final(forest)@) == forest_after(rules_of(old(forest)@), pkt@),
        ran(out, shares(rules_of(old(forest)@), pkt@, old(forest).len() as int)),
{
    let ghost rules = rules_of(forest@);
    let n = forest.len();
    let mut packets: Vec<Packet> = Vec::new();
    let mut i: usize = 0;
    assert(packets.deep_view() =~= Seq::<Seq<u8>>::empty());
    while i < n
        invariant
            i <= n,
            n == forest.len(),
            n == rules.len(),
            n == old(forest).len(),
            rules == rules_of(old(forest)@),
            shares(rules, pkt@, i as int) == Ok::<_, Fault>(packets.deep_view()),
            forall|j: int| 0 <= j < i ==> #[trigger] rules_of(forest@)[j] == rules[j].seen(pkt@),
            forall|j: int| i <= j < n ==> #[trigger] rules_of(forest@)[j] == rules[j],
        decreases n - i,
    {
        let ghost trees = forest@;
        let ghost before = rules_of(forest@);
        assert(before[i as int] == rules[i as int]);
        let made = apply_rule(&mut forest[i], pkt.clone());
        proof {
            let now = rules_of(forest@);
            assert(forest@.len() == n);
            assert(forall|j: int| 0 <= j < n && j != i ==> forest@[j] == trees[j]);
            assert(forest@[i as int]@ == trees[i as int]@.seen(pkt@));
            assert forall|j: int| 0 <= j < i + 1 implies #[trigger] now[j] == rules[j].seen(
                pkt@,
            ) by {
                if j < i {
                    assert(now[j] == before[j]);
                }
            }
            assert forall|j: int| i + 1 <= j < n implies #[trigger] now[j] == rules[j] by {
                assert(now[j] == before[j]);
            }
            assert(shares(rules, pkt@, i + 1) == joined(
                shares(rules, pkt@, i as int),
                rules[i as int].share(pkt@),
            ));
        }
        match made {
            Ok(own) => {
                packets = join(packets, own);
            },
            Err(e) => {
                proof {
                    lemma_forest_after(rules, rules_of(forest@), pkt@, i + 1);
                    lemma_failure_stays(rules, pkt@, i + 1, n as int);
                }
                return Err(e);
            },
        }
        i += 1;
    }
    proof {
        if n > 0 {
            lemma_success_before(rules, pkt@, n - 1, n as int);
        }
        lemma_forest_after(rules, rules_of(forest@), pkt@, n as int);
    }
    Ok(packets)
}

/// Once a rule has failed, the forest has failed in the same way, however
/// many rules follow.
proof fn lemma_failure_stays(rules: Seq<RuleModel>, pkt: Seq<u8>, n: int, m: int)
    requires
        0 <= n <= m,
        shares(rules, pkt, n) is Err,
    ensures
        shares(rules, pkt, m) == shares(rules, pkt, n),
    decreases m - n,
{
    if n < m {
        lemma_failure_stays(rules, pkt, n, m - 1);
    }
}

/// Where the first rules of a forest have not failed, no fewer of them have.
proof fn lemma_success_before(rules: Seq<RuleModel>, pkt: Seq<u8>, n: int, m: int)
    requires
        0 <= n <= m,
        shares(rules, pkt, m) is Ok,
    ensures
        shares(rules, pkt, n) is Ok,
    decreases m - n,
{
    if n < m {
        lemma_success_before(rules, pkt, n, m - 1);
    }
}

impl Strategy {
    /// Applies the strategy to a packet that travels in a direction, and
    /// gives the packets that leave in its place.
    ///
    /// Where the strategy has no rules for the direction, the packet passes:
    /// the result is the packet itself. Otherwise each rule, in order, sees a
    /// copy of the packet as it came in. A rule whose trigger fires gives what
    /// its action tree makes of the copy; any other rule gives the copy. The
    /// result holds what the rules gave, one rule after the other. The first
    /// action that fails ends the run with its error; the rules behind it do
    /// not see the packet.
    pub fn apply(&mut self, pkt: Packet, direction: Direction) -> (out: Result<Vec<Packet>, Error>)
        ensures
            final(self)@ == old(self)@.after(pkt@, direction),
            ran(out, old(self)@.output(pkt@, direction)),
    {
        let forest = match direction {
            Direction::Inbound => &mut self.inbound,
            Direction::Outbound => &mut self.outbound,
        };
        match forest {
            Some(rules) => {
                if rules.len() == 0 {
                    let mut out: Vec<Packet> = Vec::new();
                    out.push(pkt);
                    assert(out.deep_view() =~= seq![pkt@]);
                    assert(rules_of(rules@) =~= forest_after(rules_of(rules@), pkt@));
                    Ok(out)
                } else {
                    apply_forest(rules, pkt)
                }
            },
            None => {
                let mut out: Vec<Packet> = Vec::new();
                out.push(pkt);
                assert(out.deep_view() =~= seq![pkt@]);
                Ok(out)
            },
        }
    }

    /// The strategy in its canonical written form, which
    /// [`parse_strategy`](crate::parser::parse_strategy) reads back.
    pub fn to_string(&self) -> (text: String)
        ensures
            text@ == self@.text(),
    {
        let mut text = String::new();
        match &self.outbound {
            Some(forest) => push_outbound(&mut text, forest),
            None => {},
        }
        text.push('\\');
        text.push('/');
        match &self.inbound {
            Some(forest) => push_inbound(&mut text, forest),
            None => {},
        }
        assert(text@ == self@.text());
        text
    }
}

} // verus!
