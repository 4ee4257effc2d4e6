//! The grammar of strategies, as functions from a text and a position to
//! what stands there.
//!
//! ```text
//!   strategy := blanks forest "\/" blanks forest
//!   forest   := { rule blanks }
//!   rule     := trigger "-" action "-|"
//!   trigger  := "[" name ":" name ":" value [ ":" digits ] "]"
//!   action   := "" | "send" | "drop" | "duplicate" pair
//!             | "fragment{" digits ":" digits ":" ( "True" | "False" ) "}" pair
//!             | "tamper{" name ":" name ":" mode "}" single
//!   mode     := "replace:" value | ( "corrupt" | "add" ) [ ":" value ]
//!   pair     := [ "(" action "," action ")" ]
//!   single   := [ "(" action "," ")" ]
//! ```
//!
//! A name or value in a trigger runs up to the next `:` or `]`; a name in
//! `tamper` up to the next `:` or `}`, its value up to the next `}`. An
//! action that is left out, and an argument list that is left out, stand for
//! `send`.
//!
//! A text can fail in two ways. It can break the grammar: then nothing is
//! read, and the offset of the break is reported. Or it can follow the
//! grammar and hold a token that names nothing known, such as a field that
//! the protocol does not have: then the first such token is reported. A break
//! anywhere in the text goes before any unknown token.

use crate::actions::tamper::TamperMode;
use crate::actions::{ActionModel, RuleModel};
use crate::errors::{syntax_message, Fault};
use crate::strategy::StrategyModel;
use crate::text::{blank_len, digits_len, number, occurs_at, run_len, stands};
use crate::triggers::{Field, TriggerModel};
use vstd::prelude::*;

verus! {

/// What stands at a position of a text.
pub enum Outcome<T> {
    /// The text breaks the grammar at this offset from its start.
    Broken(int),
    /// So many characters follow the grammar, but hold a token that names
    /// nothing known: the first such token.
    Unknown(Seq<char>, nat),
    /// A value, written in so many characters.
    Read(T, nat),
}

impl<T> Outcome<T> {
    /// The number of characters that were read.
    pub open spec fn consumed(self) -> nat {
        match self {
            Outcome::Broken(_) => 0,
            Outcome::Unknown(_, n) => n,
            Outcome::Read(_, n) => n,
        }
    }
}

/// The outcome for `n` characters that follow the grammar, given what their
/// tokens stand for.
pub open spec fn settled<T>(found: Result<T, Seq<char>>, n: nat) -> Outcome<T> {
    match found {
        Ok(value) => Outcome::Read(value, n),
        Err(token) => Outcome::Unknown(token, n),
    }
}

/// Two outcomes one behind the other, with `between` characters of
/// punctuation around them. A break in either is a break; of two unknown
/// tokens the first counts.
pub open spec fn both<A, B>(first: Outcome<A>, second: Outcome<B>, between: nat) -> Outcome<
    (A, B),
> {
    let n = first.consumed() + second.consumed() + between;
    match (first, second) {
        (Outcome::Broken(at), _) => Outcome::Broken(at),
        (_, Outcome::Broken(at)) => Outcome::Broken(at),
        (Outcome::Unknown(token, _), _) => Outcome::Unknown(token, n),
        (_, Outcome::Unknown(token, _)) => Outcome::Unknown(token, n),
        (Outcome::Read(a, _), Outcome::Read(b, _)) => Outcome::Read((a, b), n),
    }
}

/// The characters left from `pos` to the end of the text.
pub open spec fn room(s: Seq<char>, pos: int) -> nat {
    if pos <= s.len() {
        (s.len() - pos) as nat
    } else {
        0
    }
}

/// The budget that a trigger's digits write: zero where there are none.
/// A number that no `usize` holds is an unknown token.
pub open spec fn gas_of(digits: Option<Seq<char>>) -> Result<nat, Seq<char>> {
    match digits {
        None => Ok(0),
        Some(d) => if number(d) <= usize::MAX {
            Ok(number(d))
        } else {
            Err(d)
        },
    }
}

/// The trigger that four tokens stand for: a fresh one, which has not fired.
pub open spec fn trigger_of(
    layer: Seq<char>,
    field: Seq<char>,
    value: Seq<char>,
    gas: Option<Seq<char>>,
) -> Result<TriggerModel, Seq<char>> {
    match Field::named(layer, field) {
        Err(token) => Err(token),
        Ok(f) => match gas_of(gas) {
            Err(token) => Err(token),
            Ok(g) => Ok(TriggerModel { field: f, value, gas: g, fired: 0 }),
        },
    }
}

/// The trigger that stands at `pos`.
pub open spec fn trigger_at(s: Seq<char>, pos: int) -> Outcome<TriggerModel> {
    let l0 = pos + 1;
    let l1 = l0 + run_len(s, l0, ':', ']');
    let f0 = l1 + 1;
    let f1 = f0 + run_len(s, f0, ':', ']');
    let v0 = f1 + 1;
    let v1 = v0 + run_len(s, v0, ':', ']');
    let g0 = v1 + 1;
    let g1 = g0 + digits_len(s, g0);
    if !stands(s, pos, '[') {
        Outcome::Broken(pos)
    } else if !stands(s, l1, ':') {
        Outcome::Broken(l1)
    } else if !stands(s, f1, ':') {
        Outcome::Broken(f1)
    } else if stands(s, v1, ']') {
        settled(
            trigger_of(s.subrange(l0, l1), s.subrange(f0, f1), s.subrange(v0, v1), None),
            (v1 + 1 - pos) as nat,
        )
    } else if !stands(s, v1, ':') {
        Outcome::Broken(v1)
    } else if g1 == g0 {
        Outcome::Broken(g0)
    } else if !stands(s, g1, ']') {
        Outcome::Broken(g1)
    } else {
        settled(
            trigger_of(
                s.subrange(l0, l1),
                s.subrange(f0, f1),
                s.subrange(v0, v1),
                Some(s.subrange(g0, g1)),
            ),
            (g1 + 1 - pos) as nat,
        )
    }
}

/// The parameters of `fragment` that two digit strings and a flag stand for.
/// A number that no `u16` holds is an unknown token.
pub open spec fn fragment_of(protocol: Seq<char>, size: Seq<char>, in_order: bool) -> Result<
    (u16, u16, bool),
    Seq<char>,
> {
    if number(protocol) > u16::MAX {
        Err(protocol)
    } else if number(size) > u16::MAX {
        Err(size)
    } else {
        Ok((number(protocol) as u16, number(size) as u16, in_order))
    }
}

/// The parameters of `fragment` that stand at `pos`, just behind the opening
/// brace, up to and with the closing one.
#[verifier::opaque]
pub open spec fn fragment_head_at(s: Seq<char>, pos: int) -> Outcome<(u16, u16, bool)> {
    let pe = pos + digits_len(s, pos);
    let z0 = pe + 1;
    let z1 = z0 + digits_len(s, z0);
    let o0 = z1 + 1;
    let yes = o0 + "True"@.len();
    let no = o0 + "False"@.len();
    if pe == pos {
        Outcome::Broken(pos)
    } else if !stands(s, pe, ':') {
        Outcome::Broken(pe)
    } else if z1 == z0 {
        Outcome::Broken(z0)
    } else if !stands(s, z1, ':') {
        Outcome::Broken(z1)
    } else if occurs_at(s, o0, "True"@) {
        if stands(s, yes, '}') {
            settled(
                fragment_of(s.subrange(pos, pe), s.subrange(z0, z1), true),
                (yes + 1 - pos) as nat,
            )
        } else {
            Outcome::Broken(yes)
        }
    } else if occurs_at(s, o0, "False"@) {
        if stands(s, no, '}') {
            settled(
                fragment_of(s.subrange(pos, pe), s.subrange(z0, z1), false),
                (no + 1 - pos) as nat,
            )
        } else {
            Outcome::Broken(no)
        }
    } else {
        Outcome::Broken(o0)
    }
}

/// The mode whose name stands at `pos`.
pub open spec fn mode_at(s: Seq<char>, pos: int) -> Option<TamperMode> {
    if occurs_at(s, pos, "replace"@) {
        Some(TamperMode::Replace)
    } else if occurs_at(s, pos, "corrupt"@) {
        Some(TamperMode::Corrupt)
    } else if occurs_at(s, pos, "add"@) {
        Some(TamperMode::Add)
    } else {
        None
    }
}

/// The parameters of `tamper` that its tokens stand for: the tokens
/// themselves, where the two names name a field.
pub open spec fn tamper_of(
    layer: Seq<char>,
    field: Seq<char>,
    mode: TamperMode,
    value: Seq<char>,
) -> Result<(Seq<char>, Seq<char>, TamperMode, Seq<char>), Seq<char>> {
    match Field::named(layer, field) {
        Err(token) => Err(token),
        Ok(_) => Ok((layer, field, mode, value)),
    }
}

/// The parameters of `tamper` that stand at `pos`, just behind the opening
/// brace, up to and with the closing one: protocol, field, mode and value.
#[verifier::opaque]
pub open spec fn tamper_head_at(s: Seq<char>, pos: int) -> Outcome<
    (Seq<char>, Seq<char>, TamperMode, Seq<char>),
> {
    let l1 = pos + run_len(s, pos, ':', '}');
    let f0 = l1 + 1;
    let f1 = f0 + run_len(s, f0, ':', '}');
    let m0 = f1 + 1;
    if !stands(s, l1, ':') {
        Outcome::Broken(l1)
    } else if !stands(s, f1, ':') {
        Outcome::Broken(f1)
    } else {
        match mode_at(s, m0) {
            None => Outcome::Broken(m0),
            Some(mode) => {
                let m1 = m0 + mode.name().len();
                let v0 = m1 + 1;
                let v1 = v0 + run_len(s, v0, '}', '}');
                if stands(s, m1, ':') {
                    if stands(s, v1, '}') {
                        settled(
                            tamper_of(
                                s.subrange(pos, l1),
                                s.subrange(f0, f1),
                                mode,
                                s.subrange(v0, v1),
                            ),
                            (v1 + 1 - pos) as nat,
                        )
                    } else {
                        Outcome::Broken(v1)
                    }
                } else if stands(s, m1, '}') && mode != TamperMode::Replace {
                    settled(
                        tamper_of(s.subrange(pos, l1), s.subrange(f0, f1), mode, Seq::empty()),
                        (m1 + 1 - pos) as nat,
                    )
                } else {
                    Outcome::Broken(m1)
                }
            },
        }
    }
}

/// The `duplicate` action with the given subtrees.
pub open spec fn duplicate_of(args: (ActionModel, ActionModel)) -> ActionModel {
    ActionModel::Duplicate { left: Box::new(args.0), right: Box::new(args.1) }
}

/// The `fragment` action with the given parameters and subtrees.
pub open spec fn fragment_with(parts: ((u16, u16, bool), (ActionModel, ActionModel)))
    -> ActionModel {
    ActionModel::Fragment {
        protocol: parts.0.0,
        fragment_size: parts.0.1,
        in_order: parts.0.2,
        overlap: 0,
        left: Box::new(parts.1.0),
        right: Box::new(parts.1.1),
    }
}

/// The `tamper` action with the given parameters and subtree.
pub open spec fn tamper_with(
    parts: ((Seq<char>, Seq<char>, TamperMode, Seq<char>), ActionModel),
) -> ActionModel {
    ActionModel::Tamper {
        protocol: parts.0.0,
        field: parts.0.1,
        new_value: parts.0.3,
        mode: parts.0.2,
        action: Box::new(parts.1),
    }
}

/// An outcome with `lead` more characters in front.
pub open spec fn behind<T>(lead: nat, outcome: Outcome<T>) -> Outcome<T> {
    match outcome {
        Outcome::Broken(at) => Outcome::Broken(at),
        Outcome::Unknown(token, n) => Outcome::Unknown(token, lead + n),
        Outcome::Read(value, n) => Outcome::Read(value, lead + n),
    }
}

/// An outcome with its value, where it has one, turned into another.
pub open spec fn turned<A, B>(outcome: Outcome<A>, into: spec_fn(A) -> B) -> Outcome<B> {
    match outcome {
        Outcome::Broken(at) => Outcome::Broken(at),
        Outcome::Unknown(token, n) => Outcome::Unknown(token, n),
        Outcome::Read(value, n) => Outcome::Read(into(value), n),
    }
}

/// The action tree that stands at `pos`. Where none of the action words
/// stands there, it is `send`, written in no characters.
pub open spec fn action_at(s: Seq<char>, pos: int) -> Outcome<ActionModel>
    decreases room(s, pos), 2nat,
{
    if occurs_at(s, pos, "drop"@) {
        Outcome::Read(ActionModel::Drop, "drop"@.len())
    } else if occurs_at(s, pos, "duplicate"@) {
        behind("duplicate"@.len(), duplicate_at(s, pos + "duplicate"@.len()))
    } else if occurs_at(s, pos, "fragment{"@) {
        behind("fragment{"@.len(), fragment_at(s, pos + "fragment{"@.len()))
    } else if occurs_at(s, pos, "tamper{"@) {
        behind("tamper{"@.len(), tamper_at(s, pos + "tamper{"@.len()))
    } else if occurs_at(s, pos, "send"@) {
        Outcome::Read(ActionModel::Send, "send"@.len())
    } else {
        Outcome::Read(ActionModel::Send, 0)
    }
}

/// The `duplicate` action whose argument list stands at `pos`.
pub open spec fn duplicate_at(s: Seq<char>, pos: int) -> Outcome<ActionModel>
    decreases room(s, pos), 1nat,
{
    turned(pair_at(s, pos), |args| duplicate_of(args))
}

/// The `fragment` action whose parameters stand at `pos`, just behind the
/// opening brace.
pub open spec fn fragment_at(s: Seq<char>, pos: int) -> Outcome<ActionModel>
    decreases room(s, pos), 1nat,
{
    let head = fragment_head_at(s, pos);
    match head {
        Outcome::Broken(at) => Outcome::Broken(at),
        _ => turned(
            both(head, pair_at(s, pos + head.consumed()), 0),
            |parts| fragment_with(parts),
        ),
    }
}

/// The `tamper` action whose parameters stand at `pos`, just behind the
/// opening brace.
pub open spec fn tamper_at(s: Seq<char>, pos: int) -> Outcome<ActionModel>
    decreases room(s, pos), 1nat,
{
    let head = tamper_head_at(s, pos);
    match head {
        Outcome::Broken(at) => Outcome::Broken(at),
        _ => turned(
            both(head, single_at(s, pos + head.consumed()), 0),
            |parts| tamper_with(parts),
        ),
    }
}

/// The argument list of two subtrees that stands at `pos`. Where no bracket
/// opens there, both are `send`.
pub open spec fn pair_at(s: Seq<char>, pos: int) -> Outcome<(ActionModel, ActionModel)>
    decreases room(s, pos), 0nat,
{
    if !stands(s, pos, '(') {
        Outcome::Read((ActionModel::Send, ActionModel::Send), 0)
    } else {
        let left = action_at(s, pos + 1);
        let comma = pos + 1 + left.consumed();
        match left {
            Outcome::Broken(at) => Outcome::Broken(at),
            _ => if !stands(s, comma, ',') {
                Outcome::Broken(comma)
            } else {
                let right = action_at(s, comma + 1);
                let close = comma + 1 + right.consumed();
                match right {
                    Outcome::Broken(at) => Outcome::Broken(at),
                    _ => if !stands(s, close, ')') {
                        Outcome::Broken(close)
                    } else {
                        both(left, right, 3)
                    },
                }
            },
        }
    }
}

/// The argument list of one subtree that stands at `pos`. Where no bracket
/// opens there, the subtree is `send`.
pub open spec fn single_at(s: Seq<char>, pos: int) -> Outcome<ActionModel>
    decreases room(s, pos), 0nat,
{
    if !stands(s, pos, '(') {
        Outcome::Read(ActionModel::Send, 0)
    } else {
        let inner = action_at(s, pos + 1);
        let comma = pos + 1 + inner.consumed();
        match inner {
            Outcome::Broken(at) => Outcome::Broken(at),
            _ => if !stands(s, comma, ',') {
                Outcome::Broken(comma)
            } else if !stands(s, comma + 1, ')') {
                Outcome::Broken(comma + 1)
            } else {
                behind(3, inner)
            },
        }
    }
}

/// The rule with the given trigger and action.
pub open spec fn rule_of(parts: (TriggerModel, ActionModel)) -> RuleModel {
    RuleModel { trigger: parts.0, action: parts.1 }
}

/// The rule that stands at `pos`.
#[verifier::opaque]
pub open spec fn rule_at(s: Seq<char>, pos: int) -> Outcome<RuleModel> {
    let trigger = trigger_at(s, pos);
    let dash = pos + trigger.consumed();
    let action = action_at(s, dash + 1);
    let bar = dash + 1 + action.consumed();
    match trigger {
        Outcome::Broken(at) => Outcome::Broken(at),
        _ => if !stands(s, dash, '-') {
            Outcome::Broken(dash)
        } else {
            match action {
                Outcome::Broken(at) => Outcome::Broken(at),
                _ => if !occurs_at(s, bar, seq!['-', '|']) {
                    Outcome::Broken(bar)
                } else {
                    turned(both(trigger, action, 3), |parts| rule_of(parts))
                },
            }
        },
    }
}

/// The list with one more rule in front.
pub open spec fn forest_with(parts: (RuleModel, Seq<RuleModel>)) -> Seq<RuleModel> {
    seq![parts.0] + parts.1
}

/// The rules that stand in a row from `pos` on, each with the blanks behind
/// it. The row ends before the first character that opens no trigger.
pub open spec fn forest_at(s: Seq<char>, pos: int) -> Outcome<Seq<RuleModel>>
    decreases room(s, pos),
{
    if !stands(s, pos, '[') {
        Outcome::Read(Seq::empty(), 0)
    } else {
        let rule = rule_at(s, pos);
        let gap = blank_len(s, pos + rule.consumed());
        proof {
            reveal(rule_at);
        }
        match rule {
            Outcome::Broken(at) => Outcome::Broken(at),
            _ => turned(
                both(rule, forest_at(s, pos + rule.consumed() + gap), gap),
                |parts| forest_with(parts),
            ),
        }
    }
}

/// One side of a strategy: absent where it has no rules.
pub open spec fn side_of(rules: Seq<RuleModel>) -> Option<Seq<RuleModel>> {
    if rules.len() == 0 {
        None
    } else {
        Some(rules)
    }
}

/// The strategy with the given outbound and inbound rules.
pub open spec fn strategy_with(parts: (Seq<RuleModel>, Seq<RuleModel>)) -> StrategyModel {
    StrategyModel { outbound: side_of(parts.0), inbound: side_of(parts.1) }
}

/// The strategy that a whole text writes, read from its start.
pub open spec fn strategy_at(s: Seq<char>) -> Outcome<StrategyModel> {
    let start = blank_len(s, 0) as int;
    let outbound = forest_at(s, start);
    let mark = start + outbound.consumed();
    let gap = blank_len(s, mark + 2);
    let inbound = forest_at(s, mark + 2 + gap);
    let end = mark + 2 + gap + inbound.consumed();
    match outbound {
        Outcome::Broken(at) => Outcome::Broken(at),
        _ => if !occurs_at(s, mark, seq!['\\', '/']) {
            Outcome::Broken(mark)
        } else {
            match inbound {
                Outcome::Broken(at) => Outcome::Broken(at),
                _ => if end != s.len() {
                    Outcome::Broken(end)
                } else {
                    turned(
                        both(outbound, inbound, (start + 2 + gap) as nat),
                        |parts| strategy_with(parts),
                    )
                },
            }
        },
    }
}

/// An outcome as a result: the value, or the fault in the text.
pub open spec fn verdict<T>(outcome: Outcome<T>) -> Result<T, Fault> {
    match outcome {
        Outcome::Broken(at) => Err(Fault::Syntax(syntax_message(at as nat))),
        Outcome::Unknown(token, _) => Err(Fault::Parse(token)),
        Outcome::Read(value, _) => Ok(value),
    }
}

/// What reading a strategy from a text gives: the strategy, or the fault in
/// the text.
pub open spec fn strategy_of(s: Seq<char>) -> Result<StrategyModel, Fault> {
    verdict(strategy_at(s))
}

} // verus!
