//! Reading strategies from text.
//!
//! The reader walks a character buffer from left to right and never looks
//! back. Each function reads what the [grammar] says stands at a position and
//! reports where it ends.

use crate::actions::{
    ActionTree, DropAction, DuplicateAction, FragmentAction, GenevaAction, SendAction,
    TamperAction, TamperMode,
};
use crate::errors::{Error, Fault};
use crate::actions::RuleModel;
use crate::parser::grammar::{
    action_at, both, duplicate_at, forest_at, forest_with, fragment_at, fragment_head_at,
    mode_at, pair_at, room, rule_at, single_at, strategy_of, strategy_with, tamper_at,
    tamper_head_at, tamper_of, trigger_at, trigger_of, turned, verdict, Outcome,
};
use crate::strategy::{rules_of, Strategy, StrategyModel};
use crate::text::{
    all_digits, chars_of, looking_at, looking_at_two, read_number, skip_blanks, skip_digits,
    skip_run, text_of,
};
use crate::triggers::{Field, GenevaTrigger, IPTrigger, TCPTrigger, TriggerModel};
use vstd::pervasive::unreached;
use vstd::prelude::*;
use vstd::slice::slice_subrange;

pub mod grammar;
pub mod laws;

verus! {

/// What the reader found at a position of the buffer.
pub enum Step<T> {
    /// The text breaks the grammar at this position.
    Broken(usize),
    /// The text follows the grammar up to the position given, but holds a
    /// token that names nothing known: the first such token.
    Unknown(String, usize),
    /// A value, and the position behind it.
    Read(T, usize),
}

impl<T: View> Step<T> {
    /// The step is what the grammar finds at `pos` of a buffer of `len`
    /// characters.
    pub open spec fn finds(self, outcome: Outcome<T::V>, pos: usize, len: usize) -> bool {
        match self {
            Step::Broken(at) => outcome == Outcome::<T::V>::Broken(at as int),
            Step::Unknown(token, end) => pos <= end <= len && outcome == Outcome::<
                T::V,
            >::Unknown(token@, (end - pos) as nat),
            Step::Read(value, end) => pos <= end <= len && outcome == Outcome::Read(
                value@,
                (end - pos) as nat,
            ),
        }
    }
}

/// The step for a stretch of text that follows the grammar and ends at
/// `end`, given what its tokens stand for.
fn settle<T: View>(found: Result<T, String>, end: usize) -> (step: Step<T>)
    ensures
        match found {
            Ok(value) => step == Step::Read(value, end),
            Err(token) => step == Step::<T>::Unknown(token, end),
        },
{
    match found {
        Ok(value) => Step::Read(value, end),
        Err(token) => Step::Unknown(token, end),
    }
}

/// Builds the trigger that the tokens at the given positions stand for.
fn build_trigger(
    chars: &[char],
    layer: (usize, usize),
    field: (usize, usize),
    value: (usize, usize),
    gas: Option<(usize, usize)>,
) -> (built: Result<GenevaTrigger, String>)
    requires
        layer.0 <= layer.1 <= chars.len(),
        field.0 <= field.1 <= chars.len(),
        value.0 <= value.1 <= chars.len(),
        gas matches Some(g) ==> g.0 <= g.1 <= chars.len() && all_digits(
            chars@.subrange(g.0 as int, g.1 as int),
        ),
    ensures
        ({
            let wanted = trigger_of(
                chars@.subrange(layer.0 as int, layer.1 as int),
                chars@.subrange(field.0 as int, field.1 as int),
                chars@.subrange(value.0 as int, value.1 as int),
                match gas {
                    Some(g) => Some(chars@.subrange(g.0 as int, g.1 as int)),
                    None => None,
                },
            );
            match built {
                Ok(trigger) => wanted == Ok::<_, Seq<char>>(trigger@),
                Err(token) => wanted == Err::<TriggerModel, _>(token@),
            }
        }),
{
    let found = Field::lookup(
        slice_subrange(chars, layer.0, layer.1),
        slice_subrange(chars, field.0, field.1),
    );
    let f = match found {
        Ok(f) => f,
        Err(token) => {
            return Err(token);
        },
    };
    let budget: usize = match gas {
        None => 0,
        Some(g) => match read_number(chars, g.0, g.1, usize::MAX as u64) {
            Some(n) => n as usize,
            None => {
                return Err(text_of(chars, g.0, g.1));
            },
        },
    };
    let text = text_of(chars, value.0, value.1);
    match f {
        Field::IP(f) => Ok(GenevaTrigger::IP(IPTrigger::new(f, text, budget, 0))),
        Field::TCP(f) => match TCPTrigger::new(f, text, budget) {
            Ok(trigger) => Ok(GenevaTrigger::TCP(trigger)),
            Err(_) => unreached(),
        },
    }
}

/// Reads the trigger that stands at `pos`.
pub(crate) fn parse_trigger(chars: &[char], pos: usize) -> (step: Step<GenevaTrigger>)
    requires
        pos <= chars.len(),
    ensures
        step.finds(trigger_at(chars@, pos as int), pos, chars.len()),
{
    let len = chars.len();
    if !(pos < len && chars[pos] == '[') {
        return Step::Broken(pos);
    }
    let l0 = pos + 1;
    let l1 = skip_run(chars, l0, ':', ']');
    if !(l1 < len && chars[l1] == ':') {
        return Step::Broken(l1);
    }
    let f0 = l1 + 1;
    let f1 = skip_run(chars, f0, ':', ']');
    if !(f1 < len && chars[f1] == ':') {
        return Step::Broken(f1);
    }
    let v0 = f1 + 1;
    let v1 = skip_run(chars, v0, ':', ']');
    if v1 < len && chars[v1] == ']' {
        return settle(build_trigger(chars, (l0, l1), (f0, f1), (v0, v1), None), v1 + 1);
    }
    if !(v1 < len && chars[v1] == ':') {
        return Step::Broken(v1);
    }
    let g0 = v1 + 1;
    let g1 = skip_digits(chars, g0);
    if g1 == g0 {
        return Step::Broken(g0);
    }
    if !(g1 < len && chars[g1] == ']') {
        return Step::Broken(g1);
    }
    settle(build_trigger(chars, (l0, l1), (f0, f1), (v0, v1), Some((g0, g1))), g1 + 1)
}

/// Reads the parameters of `fragment` that stand at `pos`, just behind the
/// opening brace, up to and with the closing one.
fn parse_fragment_head(chars: &[char], pos: usize) -> (step: Step<(u16, u16, bool)>)
    requires
        pos <= chars.len(),
    ensures
        step.finds(fragment_head_at(chars@, pos as int), pos, chars.len()),
{
    reveal(fragment_head_at);
    let len = chars.len();
    let pe = skip_digits(chars, pos);
    if pe == pos {
        return Step::Broken(pos);
    }
    if !(pe < len && chars[pe] == ':') {
        return Step::Broken(pe);
    }
    let z0 = pe + 1;
    let z1 = skip_digits(chars, z0);
    if z1 == z0 {
        return Step::Broken(z0);
    }
    if !(z1 < len && chars[z1] == ':') {
        return Step::Broken(z1);
    }
    let o0 = z1 + 1;
    proof {
        reveal_strlit("True");
        reveal_strlit("False");
    }
    let in_order: bool;
    let close: usize;
    if looking_at(chars, o0, "True") {
        in_order = true;
        close = o0 + 4;
    } else if looking_at(chars, o0, "False") {
        in_order = false;
        close = o0 + 5;
    } else {
        return Step::Broken(o0);
    }
    if !(close < len && chars[close] == '}') {
        return Step::Broken(close);
    }
    let protocol = match read_number(chars, pos, pe, 0xffff) {
        Some(n) => n as u16,
        None => {
            return Step::Unknown(text_of(chars, pos, pe), close + 1);
        },
    };
    let size = match read_number(chars, z0, z1, 0xffff) {
        Some(n) => n as u16,
        None => {
            return Step::Unknown(text_of(chars, z0, z1), close + 1);
        },
    };
    Step::Read((protocol, size, in_order), close + 1)
}

/// Reads the mode of `tamper` whose name stands at `pos`, and the position
/// behind the name.
fn parse_mode(chars: &[char], pos: usize) -> (found: Option<(TamperMode, usize)>)
    requires
        pos <= chars.len(),
    ensures
        match found {
            Some((mode, end)) => mode_at(chars@, pos as int) == Some(mode) && end == pos
                + mode.name().len() && end <= chars.len(),
            None => mode_at(chars@, pos as int) is None,
        },
{
    proof {
        reveal_strlit("replace");
        reveal_strlit("corrupt");
        reveal_strlit("add");
    }
    if looking_at(chars, pos, "replace") {
        Some((TamperMode::Replace, pos + 7))
    } else if looking_at(chars, pos, "corrupt") {
        Some((TamperMode::Corrupt, pos + 7))
    } else if looking_at(chars, pos, "add") {
        Some((TamperMode::Add, pos + 3))
    } else {
        None
    }
}

/// Checks the two names of `tamper` and packs its parameters.
fn build_tamper_head(
    chars: &[char],
    layer: (usize, usize),
    field: (usize, usize),
    mode: TamperMode,
    value: (usize, usize),
) -> (built: Result<(String, String, TamperMode, String), String>)
    requires
        layer.0 <= layer.1 <= chars.len(),
        field.0 <= field.1 <= chars.len(),
        value.0 <= value.1 <= chars.len(),
    ensures
        ({
            let wanted = tamper_of(
                chars@.subrange(layer.0 as int, layer.1 as int),
                chars@.subrange(field.0 as int, field.1 as int),
                mode,
                chars@.subrange(value.0 as int, value.1 as int),
            );
            match built {
                Ok(head) => wanted == Ok::<_, Seq<char>>(head@),
                Err(token) => wanted == Err::<(Seq<char>, Seq<char>, TamperMode, Seq<char>), _>(
                    token@,
                ),
            }
        }),
{
    let found = Field::lookup(
        slice_subrange(chars, layer.0, layer.1),
        slice_subrange(chars, field.0, field.1),
    );
    match found {
        Ok(_) => Ok(
            (
                text_of(chars, layer.0, layer.1),
                text_of(chars, field.0, field.1),
                mode,
                text_of(chars, value.0, value.1),
            ),
        ),
        Err(token) => Err(token),
    }
}

/// Reads the parameters of `tamper` that stand at `pos`, just behind the
/// opening brace, up to and with the closing one.
fn parse_tamper_head(chars: &[char], pos: usize) -> (step: Step<
    (String, String, TamperMode, String),
>)
    requires
        pos <= chars.len(),
    ensures
        step.finds(tamper_head_at(chars@, pos as int), pos, chars.len()),
{
    reveal(tamper_head_at);
    let len = chars.len();
    let l1 = skip_run(chars, pos, ':', '}');
    if !(l1 < len && chars[l1] == ':') {
        return Step::Broken(l1);
    }
    let f0 = l1 + 1;
    let f1 = skip_run(chars, f0, ':', '}');
    if !(f1 < len && chars[f1] == ':') {
        return Step::Broken(f1);
    }
    let m0 = f1 + 1;
    let (mode, m1) = match parse_mode(chars, m0) {
        Some(found) => found,
        None => {
            return Step::Broken(m0);
        },
    };
    if m1 < len && chars[m1] == ':' {
        let v0 = m1 + 1;
        let v1 = skip_run(chars, v0, '}', '}');
        if !(v1 < len && chars[v1] == '}') {
            return Step::Broken(v1);
        }
        return settle(build_tamper_head(chars, (pos, l1), (f0, f1), mode, (v0, v1)), v1 + 1);
    }
    let with_value = match mode {
        TamperMode::Replace => true,
        _ => false,
    };
    if m1 < len && chars[m1] == '}' && !with_value {
        assert(chars@.subrange(m1 as int, m1 as int) == Seq::<char>::empty());
        return settle(build_tamper_head(chars, (pos, l1), (f0, f1), mode, (m1, m1)), m1 + 1);
    }
    Step::Broken(m1)
}

/// Reads the action tree that stands at `pos`.
pub(crate) fn parse_action(chars: &[char], pos: usize) -> (step: Step<GenevaAction>)
    requires
        pos <= chars.len(),
    ensures
        step.finds(action_at(chars@, pos as int), pos, chars.len()),
    decreases room(chars@, pos as int), 2nat,
{
    proof {
        reveal_strlit("drop");
        reveal_strlit("duplicate");
        reveal_strlit("fragment{");
        reveal_strlit("tamper{");
        reveal_strlit("send");
    }
    if looking_at(chars, pos, "drop") {
        Step::Read(GenevaAction::Drop(DropAction {  }), pos + 4)
    } else if looking_at(chars, pos, "duplicate") {
        parse_duplicate(chars, pos + 9)
    } else if looking_at(chars, pos, "fragment{") {
        parse_fragment(chars, pos + 9)
    } else if looking_at(chars, pos, "tamper{") {
        parse_tamper(chars, pos + 7)
    } else if looking_at(chars, pos, "send") {
        Step::Read(GenevaAction::Send(SendAction {  }), pos + 4)
    } else {
        Step::Read(GenevaAction::Send(SendAction {  }), pos)
    }
}

/// Reads the `duplicate` action whose argument list stands at `pos`.
fn parse_duplicate(chars: &[char], pos: usize) -> (step: Step<GenevaAction>)
    requires
        pos <= chars.len(),
    ensures
        step.finds(duplicate_at(chars@, pos as int), pos, chars.len()),
    decreases room(chars@, pos as int), 1nat,
{
    match parse_pair(chars, pos) {
        Step::Broken(at) => Step::Broken(at),
        Step::Unknown(token, end) => Step::Unknown(token, end),
        Step::Read(args, end) => Step::Read(
            GenevaAction::Duplicate(DuplicateAction::new(args.0, args.1)),
            end,
        ),
    }
}

/// Reads the `fragment` action whose parameters stand at `pos`, just behind
/// the opening brace.
fn parse_fragment(chars: &[char], pos: usize) -> (step: Step<GenevaAction>)
    requires
        pos <= chars.len(),
    ensures
        step.finds(fragment_at(chars@, pos as int), pos, chars.len()),
    decreases room(chars@, pos as int), 1nat,
{
    match parse_fragment_head(chars, pos) {
        Step::Broken(at) => Step::Broken(at),
        Step::Unknown(token, brace) => match parse_pair(chars, brace) {
            Step::Broken(at) => Step::Broken(at),
            Step::Unknown(_, end) => Step::Unknown(token, end),
            Step::Read(_, end) => Step::Unknown(token, end),
        },
        Step::Read(head, brace) => match parse_pair(chars, brace) {
            Step::Broken(at) => Step::Broken(at),
            Step::Unknown(token, end) => Step::Unknown(token, end),
            Step::Read(args, end) => match FragmentAction::new(
                head.0,
                head.1,
                head.2,
                0,
                args.0,
                args.1,
            ) {
                Ok(action) => Step::Read(GenevaAction::Fragment(action), end),
                Err(_) => unreached(),
            },
        },
    }
}

/// Reads the `tamper` action whose parameters stand at `pos`, just behind
/// the opening brace.
fn parse_tamper(chars: &[char], pos: usize) -> (step: Step<GenevaAction>)
    requires
        pos <= chars.len(),
    ensures
        step.finds(tamper_at(chars@, pos as int), pos, chars.len()),
    decreases room(chars@, pos as int), 1nat,
{
    match parse_tamper_head(chars, pos) {
        Step::Broken(at) => Step::Broken(at),
        Step::Unknown(token, brace) => match parse_single(chars, brace) {
            Step::Broken(at) => Step::Broken(at),
            Step::Unknown(_, end) => Step::Unknown(token, end),
            Step::Read(_, end) => Step::Unknown(token, end),
        },
        Step::Read(head, brace) => match parse_single(chars, brace) {
            Step::Broken(at) => Step::Broken(at),
            Step::Unknown(token, end) => Step::Unknown(token, end),
            Step::Read(inner, end) => match TamperAction::new(
                head.0,
                head.1,
                head.3,
                head.2,
                inner,
            ) {
                Ok(action) => Step::Read(GenevaAction::Tamper(action), end),
                Err(_) => unreached(),
            },
        },
    }
}

/// Reads the argument list of two subtrees that stands at `pos`.
fn parse_pair(chars: &[char], pos: usize) -> (step: Step<(GenevaAction, GenevaAction)>)
    requires
        pos <= chars.len(),
    ensures
        step.finds(pair_at(chars@, pos as int), pos, chars.len()),
    decreases room(chars@, pos as int), 0nat,
{
    let len = chars.len();
    if !(pos < len && chars[pos] == '(') {
        return Step::Read(
            (GenevaAction::Send(SendAction {  }), GenevaAction::Send(SendAction {  })),
            pos,
        );
    }
    let left = parse_action(chars, pos + 1);
    let comma = match &left {
        Step::Broken(at) => {
            return Step::Broken(*at);
        },
        Step::Unknown(_, end) => *end,
        Step::Read(_, end) => *end,
    };
    if !(comma < len && chars[comma] == ',') {
        return Step::Broken(comma);
    }
    let right = parse_action(chars, comma + 1);
    let close = match &right {
        Step::Broken(at) => {
            return Step::Broken(*at);
        },
        Step::Unknown(_, end) => *end,
        Step::Read(_, end) => *end,
    };
    if !(close < len && chars[close] == ')') {
        return Step::Broken(close);
    }
    match left {
        Step::Unknown(token, _) => Step::Unknown(token, close + 1),
        Step::Read(l, _) => match right {
            Step::Unknown(token, _) => Step::Unknown(token, close + 1),
            Step::Read(r, _) => Step::Read((l, r), close + 1),
            Step::Broken(_) => unreached(),
        },
        Step::Broken(_) => unreached(),
    }
}

/// Reads the argument list of one subtree that stands at `pos`.
fn parse_single(chars: &[char], pos: usize) -> (step: Step<GenevaAction>)
    requires
        pos <= chars.len(),
    ensures
        step.finds(single_at(chars@, pos as int), pos, chars.len()),
    decreases room(chars@, pos as int), 0nat,
{
    let len = chars.len();
    if !(pos < len && chars[pos] == '(') {
        return Step::Read(GenevaAction::Send(SendAction {  }), pos);
    }
    match parse_action(chars, pos + 1) {
        Step::Broken(at) => Step::Broken(at),
        Step::Unknown(token, comma) => {
            if !(comma < len && chars[comma] == ',') {
                Step::Broken(comma)
            } else if !(comma + 1 < len && chars[comma + 1] == ')') {
                Step::Broken(comma + 1)
            } else {
                Step::Unknown(token, comma + 2)
            }
        },
        Step::Read(inner, comma) => {
            if !(comma < len && chars[comma] == ',') {
                Step::Broken(comma)
            } else if !(comma + 1 < len && chars[comma + 1] == ')') {
                Step::Broken(comma + 1)
            } else {
                Step::Read(inner, comma + 2)
            }
        },
    }
}

/// Reads the rule that stands at `pos`.
pub(crate) fn parse_action_tree(chars: &[char], pos: usize) -> (step: Step<ActionTree>)
    requires
        pos <= chars.len(),
    ensures
        step.finds(rule_at(chars@, pos as int), pos, chars.len()),
        match step {
            Step::Broken(_) => true,
            Step::Unknown(_, end) => pos < end,
            Step::Read(_, end) => pos < end,
        },
{
    reveal(rule_at);
    let len = chars.len();
    let trigger = parse_trigger(chars, pos);
    let dash = match &trigger {
        Step::Broken(at) => {
            return Step::Broken(*at);
        },
        Step::Unknown(_, end) => *end,
        Step::Read(_, end) => *end,
    };
    if !(dash < len && chars[dash] == '-') {
        return Step::Broken(dash);
    }
    let action = parse_action(chars, dash + 1);
    let bar = match &action {
        Step::Broken(at) => {
            return Step::Broken(*at);
        },
        Step::Unknown(_, end) => *end,
        Step::Read(_, end) => *end,
    };
    if !looking_at_two(chars, bar, '-', '|') {
        return Step::Broken(bar);
    }
    match trigger {
        Step::Unknown(token, _) => Step::Unknown(token, bar + 2),
        Step::Read(t, _) => match action {
            Step::Unknown(token, _) => Step::Unknown(token, bar + 2),
            Step::Read(a, _) => Step::Read(
                ActionTree { trigger: t, root_action: Box::new(a) },
                bar + 2,
            ),
            Step::Broken(_) => unreached(),
        },
        Step::Broken(_) => unreached(),
    }
}

/// What a row of rules comes to, given the rules read so far, the first
/// unknown token met so far, and what the rest of the row comes to.
pub open spec fn row_so_far(
    rules: Seq<RuleModel>,
    unknown: Option<Seq<char>>,
    lead: nat,
    rest: Outcome<Seq<RuleModel>>,
) -> Outcome<Seq<RuleModel>> {
    match rest {
        Outcome::Broken(at) => Outcome::Broken(at),
        Outcome::Unknown(token, n) => Outcome::Unknown(
            match unknown {
                Some(earlier) => earlier,
                None => token,
            },
            lead + n,
        ),
        Outcome::Read(more, n) => match unknown {
            Some(earlier) => Outcome::Unknown(earlier, lead + n),
            None => Outcome::Read(rules + more, lead + n),
        },
    }
}

/// Reading one more rule keeps the row's outcome.
proof fn lemma_row_grows(
    rules: Seq<RuleModel>,
    unknown: Option<Seq<char>>,
    lead: nat,
    rule: Outcome<RuleModel>,
    gap: nat,
    rest: Outcome<Seq<RuleModel>>,
)
    requires
        !(rule is Broken),
    ensures
        row_so_far(
            rules,
            unknown,
            lead,
            turned(both(rule, rest, gap), |parts| forest_with(parts)),
        ) == row_so_far(
            match rule {
                Outcome::Read(r, _) => rules.push(r),
                _ => rules,
            },
            match (unknown, rule) {
                (None, Outcome::Unknown(token, _)) => Some(token),
                _ => unknown,
            },
            lead + rule.consumed() + gap,
            rest,
        ),
{
    match (rule, rest) {
        (Outcome::Read(r, _), Outcome::Read(more, _)) => {
            assert(rules + forest_with((r, more)) == rules.push(r) + more);
        },
        _ => {},
    }
}

/// Reads the rules that stand in a row from `pos` on.
fn parse_forest(chars: &[char], pos: usize) -> (step: Step<Vec<ActionTree>>)
    requires
        pos <= chars.len(),
    ensures
        match step {
            Step::Broken(at) => forest_at(chars@, pos as int) == Outcome::<
                Seq<RuleModel>,
            >::Broken(at as int),
            Step::Unknown(token, end) => pos <= end <= chars.len() && forest_at(
                chars@,
                pos as int,
            ) == Outcome::<Seq<RuleModel>>::Unknown(token@, (end - pos) as nat),
            Step::Read(forest, end) => pos <= end <= chars.len() && forest_at(chars@, pos as int)
                == Outcome::Read(rules_of(forest@), (end - pos) as nat),
        },
{
    let len = chars.len();
    let mut forest: Vec<ActionTree> = Vec::new();
    let mut unknown: Option<String> = None;
    let mut at: usize = pos;
    assert(rules_of(forest@) + Seq::<RuleModel>::empty() == rules_of(forest@));
    assert(forall|more: Seq<RuleModel>| Seq::<RuleModel>::empty() + more == more);
    while at < len && chars[at] == '['
        invariant
            len == chars.len(),
            pos <= at <= len,
            forest_at(chars@, pos as int) == row_so_far(
                rules_of(forest@),
                unknown.deep_view(),
                (at - pos) as nat,
                forest_at(chars@, at as int),
            ),
        decreases len - at,
    {
        let ghost rules = rules_of(forest@);
        let ghost earlier = unknown.deep_view();
        let rule = parse_action_tree(chars, at);
        let end = match &rule {
            Step::Broken(at) => {
                return Step::Broken(*at);
            },
            Step::Unknown(_, end) => *end,
            Step::Read(_, end) => *end,
        };
        let next = skip_blanks(chars, end);
        proof {
            lemma_row_grows(
                rules,
                earlier,
                (at - pos) as nat,
                rule_at(chars@, at as int),
                (next - end) as nat,
                forest_at(chars@, next as int),
            );
        }
        match rule {
            Step::Unknown(token, _) => {
                if unknown.is_none() {
                    unknown = Some(token);
                }
            },
            Step::Read(r, _) => {
                forest.push(r);
                assert(rules_of(forest@) == rules.push(r@));
            },
            Step::Broken(_) => {},
        }
        at = next;
    }
    assert(rules_of(forest@) + Seq::<RuleModel>::empty() == rules_of(forest@));
    match unknown {
        Some(token) => Step::Unknown(token, at),
        None => Step::Read(forest, at),
    }
}

/// The forest read for one side of a strategy stands for what the grammar
/// found there.
pub open spec fn side_found(
    step: Step<Vec<ActionTree>>,
    outcome: Outcome<Seq<RuleModel>>,
) -> bool {
    match step {
        Step::Broken(_) => false,
        Step::Unknown(token, _) => outcome matches Outcome::Unknown(t, _) && t == token@,
        Step::Read(forest, _) => outcome matches Outcome::Read(rules, _) && rules == rules_of(
            forest@,
        ),
    }
}

/// Puts the two sides of a strategy together.
fn join_sides(
    outbound: Step<Vec<ActionTree>>,
    inbound: Step<Vec<ActionTree>>,
    Ghost(out_found): Ghost<Outcome<Seq<RuleModel>>>,
    Ghost(in_found): Ghost<Outcome<Seq<RuleModel>>>,
    Ghost(between): Ghost<nat>,
) -> (parsed: Result<Strategy, Error>)
    requires
        side_found(outbound, out_found),
        side_found(inbound, in_found),
    ensures
        ({
            let whole = verdict(
                turned(both(out_found, in_found, between), |parts| strategy_with(parts)),
            );
            match parsed {
                Ok(strategy) => whole == Ok::<_, Fault>(strategy@),
                Err(e) => whole == Err::<StrategyModel, _>(e@),
            }
        }),
{
    match outbound {
        Step::Unknown(token, _) => Err(Error::Parse(token)),
        Step::Read(out_rules, _) => match inbound {
            Step::Unknown(token, _) => Err(Error::Parse(token)),
            Step::Read(in_rules, _) => Ok(
                Strategy {
                    outbound: if out_rules.len() == 0 {
                        None
                    } else {
                        Some(out_rules)
                    },
                    inbound: if in_rules.len() == 0 {
                        None
                    } else {
                        Some(in_rules)
                    },
                },
            ),
            Step::Broken(_) => unreached(),
        },
        Step::Broken(_) => unreached(),
    }
}

/// Reads a strategy from its text.
///
/// The result is the strategy that the [grammar] finds in the text; where it
/// finds none, the error says why. A text that breaks the grammar gives
/// [`Error::Syntax`] with the offset of the break; a text that follows the
/// grammar but names an unknown protocol or field, or holds a number that is
/// too large, gives [`Error::Parse`] with the first such token.
pub fn parse_strategy(s: &str) -> (parsed: Result<Strategy, Error>)
    ensures
        match parsed {
            Ok(strategy) => strategy_of(s@) == Ok::<_, Fault>(strategy@),
            Err(e) => strategy_of(s@) == Err::<StrategyModel, _>(e@),
        },
{
    let text = chars_of(s);
    let chars = text.as_slice();
    let len = chars.len();
    let start = skip_blanks(chars, 0);
    let outbound = parse_forest(chars, start);
    let mark = match &outbound {
        Step::Broken(at) => {
            return Err(Error::syntax(*at));
        },
        Step::Unknown(_, end) => *end,
        Step::Read(_, end) => *end,
    };
    if !looking_at_two(chars, mark, '\\', '/') {
        return Err(Error::syntax(mark));
    }
    let from = skip_blanks(chars, mark + 2);
    let inbound = parse_forest(chars, from);
    let end = match &inbound {
        Step::Broken(at) => {
            return Err(Error::syntax(*at));
        },
        Step::Unknown(_, end) => *end,
        Step::Read(_, end) => *end,
    };
    if end != len {
        return Err(Error::syntax(end));
    }
    join_sides(
        outbound,
        inbound,
        Ghost(forest_at(chars@, start as int)),
        Ghost(forest_at(chars@, from as int)),
        Ghost((start + 2 + (from - (mark + 2))) as nat),
    )
}

impl std::str::FromStr for Strategy {
    type Err = Error;

    /// Reads a strategy from its text, as [`parse_strategy`] does.
    fn from_str(s: &str) -> (parsed: Result<Strategy, Error>)
        ensures
            match parsed {
                Ok(strategy) => strategy_of(s@) == Ok::<_, Fault>(strategy@),
                Err(e) => strategy_of(s@) == Err::<StrategyModel, _>(e@),
            },
    {
        parse_strategy(s)
    }
}

} // verus!
