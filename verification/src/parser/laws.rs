//! What reading and writing have to do with each other.
//!
//! Writing a strategy and reading the text gives the strategy back; reading a
//! text gives a strategy that can be written; and a text in the written form
//! is read and written back to the letter.

use crate::actions::tamper::TamperMode;
use crate::actions::{
    fragment_head_text, law_only_send_is_elided, order_text, pair_text, single_text,
    tamper_head_text, value_text, ActionModel,
};
use crate::actions::RuleModel;
use crate::errors::Fault;
use crate::parser::grammar::{
    action_at, duplicate_at, forest_at, fragment_at, fragment_head_at, gas_of, mode_at,
    pair_at, rule_at, single_at, strategy_of, tamper_at, tamper_head_at, trigger_at, Outcome,
};
use crate::strategy::{all_canonical, inbound_text, outbound_text, side, StrategyModel};
use crate::parser::grammar::room;
use crate::text::{blank_len, is_blank, lemma_run};
use crate::text::{
    decimal, free_of, lemma_decimal_reads_back, lemma_digits_exact, lemma_occurs_char,
    lemma_occurs_split, lemma_run_exact, lemma_word_is_free, occurs_at, run_len, stands,
};
use crate::triggers::{Field, TriggerModel};
use vstd::prelude::*;

verus! {

/// The names of the layers and of the fields hold none of the characters
/// that end a name.
proof fn lemma_names_are_plain(field: Field)
    ensures
        free_of(field.layer().name(), ':', ']'),
        free_of(field.name(), ':', ']'),
        free_of(field.layer().name(), ':', '}'),
        free_of(field.name(), ':', '}'),
{
    reveal_strlit("IP");
    reveal_strlit("TCP");
    match field {
        Field::IP(f) => f.lemma_name_is_word(),
        Field::TCP(f) => f.lemma_name_is_word(),
    }
    lemma_word_is_free(field.name(), ':', ']');
    lemma_word_is_free(field.name(), ':', '}');
}

/// A trigger that can be written down in full is read back from where its
/// text stands.
pub(crate) proof fn lemma_trigger_reads_back(s: Seq<char>, pos: int, t: TriggerModel)
    requires
        t.canonical(),
        occurs_at(s, pos, t.text()),
    ensures
        trigger_at(s, pos) == Outcome::Read(t, t.text().len()),
{
    let open = seq!['['];
    let colon = seq![':'];
    let close = seq![']'];
    let layer = t.protocol();
    let name = t.field_name();
    let gas = t.gas_text();
    let t1 = open + layer;
    let t2 = t1 + colon;
    let t3 = t2 + name;
    let t4 = t3 + colon;
    let t5 = t4 + t.value;
    let t6 = t5 + gas;
    assert(t.text() == t6 + close);
    lemma_occurs_split(s, pos, t6, close);
    lemma_occurs_split(s, pos, t5, gas);
    lemma_occurs_split(s, pos, t4, t.value);
    lemma_occurs_split(s, pos, t3, colon);
    lemma_occurs_split(s, pos, t2, name);
    lemma_occurs_split(s, pos, t1, colon);
    lemma_occurs_split(s, pos, open, layer);
    let l0 = pos + 1;
    let l1 = l0 + layer.len();
    let f0 = l1 + 1;
    let f1 = f0 + name.len();
    let v0 = f1 + 1;
    let v1 = v0 + t.value.len();
    let end = v1 + gas.len();
    lemma_occurs_char(s, pos, '[');
    lemma_occurs_char(s, l1, ':');
    lemma_occurs_char(s, f1, ':');
    lemma_occurs_char(s, end, ']');
    lemma_names_are_plain(t.field);
    lemma_run_exact(s, l0, layer, ':', ']');
    lemma_run_exact(s, f0, name, ':', ']');
    t.field.lemma_named_inverts_name();
    if t.gas > 0 {
        let digits = decimal(t.gas);
        lemma_occurs_split(s, v1, colon, digits);
        lemma_occurs_char(s, v1, ':');
        lemma_run_exact(s, v0, t.value, ':', ']');
        lemma_decimal_reads_back(t.gas);
        lemma_digits_exact(s, v1 + 1, digits);
        assert(gas_of(Some(digits)) == Ok::<nat, Seq<char>>(t.gas));
    } else {
        lemma_run_exact(s, v0, t.value, ':', ']');
    }
}

/// The parameters of `fragment` are read back from where their text stands.
pub(crate) proof fn lemma_fragment_head_reads_back(
    s: Seq<char>,
    pos: int,
    protocol: u16,
    size: u16,
    in_order: bool,
)
    requires
        occurs_at(s, pos, fragment_head_text(protocol, size, in_order)),
    ensures
        fragment_head_at(s, pos) == Outcome::Read(
            (protocol, size, in_order),
            fragment_head_text(protocol, size, in_order).len(),
        ),
{
    reveal(fragment_head_at);
    reveal_strlit("True");
    reveal_strlit("False");
    let colon = seq![':'];
    let brace = seq!['}'];
    let p = decimal(protocol as nat);
    let z = decimal(size as nat);
    let o = order_text(in_order);
    let t1 = p + colon;
    let t2 = t1 + z;
    let t3 = t2 + colon;
    let t4 = t3 + o;
    assert(fragment_head_text(protocol, size, in_order) == t4 + brace);
    lemma_occurs_split(s, pos, t4, brace);
    lemma_occurs_split(s, pos, t3, o);
    lemma_occurs_split(s, pos, t2, colon);
    lemma_occurs_split(s, pos, t1, z);
    lemma_occurs_split(s, pos, p, colon);
    let pe = pos + p.len();
    let z0 = pe + 1;
    let z1 = z0 + z.len();
    let o0 = z1 + 1;
    lemma_occurs_char(s, pe, ':');
    lemma_occurs_char(s, z1, ':');
    lemma_occurs_char(s, o0 + o.len(), '}');
    lemma_decimal_reads_back(protocol as nat);
    lemma_decimal_reads_back(size as nat);
    lemma_digits_exact(s, pos, p);
    lemma_digits_exact(s, z0, z);
    if !in_order {
        assert(!occurs_at(s, o0, "True"@)) by {
            if occurs_at(s, o0, "True"@) {
                assert(s.subrange(o0, o0 + 4)[0] == 'T');
                assert(s.subrange(o0, o0 + 5)[0] == 'F');
            }
        }
    }
}

/// The mode of `tamper` is read back from where its name stands.
proof fn lemma_mode_reads_back(s: Seq<char>, pos: int, mode: TamperMode)
    requires
        occurs_at(s, pos, mode.name()),
    ensures
        mode_at(s, pos) == Some(mode),
{
    reveal_strlit("replace");
    reveal_strlit("corrupt");
    reveal_strlit("add");
    let n = mode.name().len() as int;
    assert(s.subrange(pos, pos + n)[0] == mode.name()[0]);
    if occurs_at(s, pos, "replace"@) {
        assert(s.subrange(pos, pos + 7)[0] == 'r');
    }
    if occurs_at(s, pos, "corrupt"@) {
        assert(s.subrange(pos, pos + 7)[0] == 'c');
    }
}

/// The parameters of `tamper` are read back from where their text stands.
pub(crate) proof fn lemma_tamper_head_reads_back(
    s: Seq<char>,
    pos: int,
    protocol: Seq<char>,
    field: Seq<char>,
    mode: TamperMode,
    new_value: Seq<char>,
)
    requires
        occurs_at(s, pos, tamper_head_text(protocol, field, mode, new_value)),
        Field::named(protocol, field) is Ok,
        free_of(protocol, ':', '}'),
        free_of(field, ':', '}'),
        free_of(new_value, '}', '}'),
    ensures
        tamper_head_at(s, pos) == Outcome::Read(
            (protocol, field, mode, new_value),
            tamper_head_text(protocol, field, mode, new_value).len(),
        ),
{
    reveal(tamper_head_at);
    let colon = seq![':'];
    let brace = seq!['}'];
    let m = mode.name();
    let v = value_text(mode, new_value);
    let t1 = protocol + colon;
    let t2 = t1 + field;
    let t3 = t2 + colon;
    let t4 = t3 + m;
    let t5 = t4 + v;
    assert(tamper_head_text(protocol, field, mode, new_value) == t5 + brace);
    lemma_occurs_split(s, pos, t5, brace);
    lemma_occurs_split(s, pos, t4, v);
    lemma_occurs_split(s, pos, t3, m);
    lemma_occurs_split(s, pos, t2, colon);
    lemma_occurs_split(s, pos, t1, field);
    lemma_occurs_split(s, pos, protocol, colon);
    let l1 = pos + protocol.len();
    let f0 = l1 + 1;
    let f1 = f0 + field.len();
    let m0 = f1 + 1;
    let m1 = m0 + m.len();
    lemma_occurs_char(s, l1, ':');
    lemma_occurs_char(s, f1, ':');
    lemma_occurs_char(s, m1 + v.len(), '}');
    lemma_run_exact(s, pos, protocol, ':', '}');
    lemma_run_exact(s, f0, field, ':', '}');
    lemma_mode_reads_back(s, m0, mode);
    if mode == TamperMode::Replace || new_value.len() > 0 {
        lemma_occurs_split(s, m1, colon, new_value);
        lemma_occurs_char(s, m1, ':');
        lemma_run_exact(s, m1 + 1, new_value, '}', '}');
    } else {
        assert(new_value == Seq::<char>::empty());
    }
}

/// One of the characters that can stand behind an action stands at `at`: a
/// comma, a closing bracket or a hyphen.
pub open spec fn follows(s: Seq<char>, at: int) -> bool {
    stands(s, at, ',') || stands(s, at, ')') || stands(s, at, '-')
}

/// Where an action ends, no action word begins and no bracket opens.
proof fn lemma_nothing_follows(s: Seq<char>, pos: int)
    requires
        follows(s, pos),
    ensures
        !occurs_at(s, pos, "drop"@),
        !occurs_at(s, pos, "duplicate"@),
        !occurs_at(s, pos, "fragment{"@),
        !occurs_at(s, pos, "tamper{"@),
        !occurs_at(s, pos, "send"@),
        !stands(s, pos, '('),
{
    reveal_strlit("drop");
    reveal_strlit("duplicate");
    reveal_strlit("fragment{");
    reveal_strlit("tamper{");
    reveal_strlit("send");
    if occurs_at(s, pos, "drop"@) {
        assert(s.subrange(pos, pos + 4)[0] == 'd');
    }
    if occurs_at(s, pos, "duplicate"@) {
        assert(s.subrange(pos, pos + 9)[0] == 'd');
    }
    if occurs_at(s, pos, "fragment{"@) {
        assert(s.subrange(pos, pos + 9)[0] == 'f');
    }
    if occurs_at(s, pos, "tamper{"@) {
        assert(s.subrange(pos, pos + 7)[0] == 't');
    }
    if occurs_at(s, pos, "send"@) {
        assert(s.subrange(pos, pos + 4)[0] == 's');
    }
}

/// Where an action word stands, no word that the reader tries before it
/// stands too.
proof fn lemma_one_word(s: Seq<char>, pos: int)
    ensures
        occurs_at(s, pos, "duplicate"@) ==> !occurs_at(s, pos, "drop"@),
        occurs_at(s, pos, "fragment{"@) ==> !occurs_at(s, pos, "drop"@) && !occurs_at(
            s,
            pos,
            "duplicate"@,
        ),
        occurs_at(s, pos, "tamper{"@) ==> !occurs_at(s, pos, "drop"@) && !occurs_at(
            s,
            pos,
            "duplicate"@,
        ) && !occurs_at(s, pos, "fragment{"@),
{
    reveal_strlit("drop");
    reveal_strlit("duplicate");
    reveal_strlit("fragment{");
    reveal_strlit("tamper{");
    if occurs_at(s, pos, "drop"@) {
        assert(s.subrange(pos, pos + 4)[0] == 'd');
        assert(s.subrange(pos, pos + 4)[1] == 'r');
    }
    if occurs_at(s, pos, "duplicate"@) {
        assert(s.subrange(pos, pos + 9)[0] == 'd');
        assert(s.subrange(pos, pos + 9)[1] == 'u');
    }
    if occurs_at(s, pos, "fragment{"@) {
        assert(s.subrange(pos, pos + 9)[0] == 'f');
    }
    if occurs_at(s, pos, "tamper{"@) {
        assert(s.subrange(pos, pos + 7)[0] == 't');
    }
}

/// The parts of an argument list of two that is written out.
proof fn lemma_pair_parts(s: Seq<char>, pos: int, left: Seq<char>, right: Seq<char>)
    requires
        occurs_at(s, pos, pair_text(left, right)),
        left.len() + right.len() > 0,
    ensures
        stands(s, pos, '('),
        occurs_at(s, pos + 1, left),
        stands(s, pos + 1 + left.len(), ','),
        occurs_at(s, pos + 2 + left.len(), right),
        stands(s, pos + 2 + left.len() + right.len(), ')'),
        pair_text(left, right).len() == left.len() + right.len() + 3,
{
    let open = seq!['('];
    let comma = seq![','];
    let close = seq![')'];
    let t1 = open + left;
    let t2 = t1 + comma;
    let t3 = t2 + right;
    assert(pair_text(left, right) == t3 + close);
    lemma_occurs_split(s, pos, t3, close);
    lemma_occurs_split(s, pos, t2, right);
    lemma_occurs_split(s, pos, t1, comma);
    lemma_occurs_split(s, pos, open, left);
    lemma_occurs_char(s, pos, '(');
    lemma_occurs_char(s, pos + 1 + left.len(), ',');
    lemma_occurs_char(s, pos + 2 + left.len() + right.len(), ')');
}

/// An argument list of two is read back, given that its two subtrees are.
proof fn lemma_pair_reads_back(s: Seq<char>, pos: int, left: ActionModel, right: ActionModel)
    requires
        occurs_at(s, pos, pair_text(left.text(), right.text())),
        follows(s, pos + pair_text(left.text(), right.text()).len()),
        left.text().len() + right.text().len() > 0 ==> action_at(s, pos + 1) == Outcome::Read(
            left,
            left.text().len(),
        ) && action_at(s, pos + 2 + left.text().len()) == Outcome::Read(
            right,
            right.text().len(),
        ),
    ensures
        pair_at(s, pos) == Outcome::Read(
            (left, right),
            pair_text(left.text(), right.text()).len(),
        ),
{
    if left.text().len() + right.text().len() > 0 {
        lemma_pair_parts(s, pos, left.text(), right.text());
    } else {
        law_only_send_is_elided(left);
        law_only_send_is_elided(right);
        lemma_nothing_follows(s, pos);
    }
}

/// An argument list of one is read back, given that its subtree is.
proof fn lemma_single_reads_back(s: Seq<char>, pos: int, inner: ActionModel)
    requires
        occurs_at(s, pos, single_text(inner.text())),
        follows(s, pos + single_text(inner.text()).len()),
        inner.text().len() > 0 ==> action_at(s, pos + 1) == Outcome::Read(
            inner,
            inner.text().len(),
        ),
    ensures
        single_at(s, pos) == Outcome::Read(inner, single_text(inner.text()).len()),
{
    let text = inner.text();
    if text.len() > 0 {
        let open = seq!['('];
        let close = seq![',', ')'];
        let t1 = open + text;
        assert(single_text(text) == t1 + close);
        lemma_occurs_split(s, pos, t1, close);
        lemma_occurs_split(s, pos, open, text);
        lemma_occurs_char(s, pos, '(');
        assert(close == seq![','] + seq![')']);
        lemma_occurs_split(s, pos + 1 + text.len(), seq![','], seq![')']);
        lemma_occurs_char(s, pos + 1 + text.len(), ',');
        lemma_occurs_char(s, pos + 2 + text.len(), ')');
    } else {
        law_only_send_is_elided(inner);
        lemma_nothing_follows(s, pos);
    }
}

/// The text of the argument list of an action with subtrees; nothing for a
/// leaf.
pub open spec fn args_text(a: ActionModel) -> Seq<char> {
    match a {
        ActionModel::Duplicate { left, right } => pair_text(left.text(), right.text()),
        ActionModel::Fragment { left, right, .. } => pair_text(left.text(), right.text()),
        ActionModel::Tamper { action, .. } => single_text(action.text()),
        _ => Seq::empty(),
    }
}

/// Where the subtrees of an action are written out, the first of them; else
/// `send`.
pub open spec fn first_sub(a: ActionModel) -> ActionModel {
    match a {
        ActionModel::Duplicate { left, right } => *left,
        ActionModel::Fragment { left, right, .. } => *left,
        ActionModel::Tamper { action, .. } => *action,
        _ => ActionModel::Send,
    }
}

/// Where an action has two subtrees, the second of them; else `send`.
pub open spec fn second_sub(a: ActionModel) -> ActionModel {
    match a {
        ActionModel::Duplicate { left, right } => *right,
        ActionModel::Fragment { left, right, .. } => *right,
        _ => ActionModel::Send,
    }
}

/// The subtrees of an action are read back from where their texts stand
/// inside the action's text.
pub open spec fn subs_read_back(s: Seq<char>, pos: int, a: ActionModel) -> bool {
    let p = pos + a.text().len() - args_text(a).len();
    args_text(a).len() > 0 ==> {
        &&& action_at(s, p + 1) == Outcome::Read(first_sub(a), first_sub(a).text().len())
        &&& !(a is Tamper) ==> action_at(s, p + 2 + first_sub(a).text().len()) == Outcome::Read(
            second_sub(a),
            second_sub(a).text().len(),
        )
    }
}

/// Where the text of an action with subtrees stands, the texts of the
/// subtrees stand inside it, each before a character that can follow an
/// action.
proof fn lemma_subs_stand(s: Seq<char>, pos: int, a: ActionModel)
    requires
        occurs_at(s, pos, a.text()),
        args_text(a).len() > 0,
    ensures
        ({
            let p = pos + a.text().len() - args_text(a).len();
            let l = first_sub(a).text();
            let r = second_sub(a).text();
            &&& occurs_at(s, p + 1, l)
            &&& follows(s, p + 1 + l.len())
            &&& !(a is Tamper) ==> occurs_at(s, p + 2 + l.len(), r) && follows(
                s,
                p + 2 + l.len() + r.len(),
            )
        }),
{
    match a {
        ActionModel::Duplicate { left, right } => {
            let args = pair_text(left.text(), right.text());
            lemma_occurs_split(s, pos, "duplicate"@, args);
            lemma_pair_parts(s, pos + "duplicate"@.len(), left.text(), right.text());
        },
        ActionModel::Fragment { protocol, fragment_size, in_order, overlap, left, right } => {
            let lead = "fragment{"@ + fragment_head_text(protocol, fragment_size, in_order);
            let args = pair_text(left.text(), right.text());
            lemma_occurs_split(s, pos, lead, args);
            lemma_pair_parts(s, pos + lead.len(), left.text(), right.text());
        },
        ActionModel::Tamper { protocol, field, new_value, mode, action } => {
            let lead = "tamper{"@ + tamper_head_text(protocol, field, mode, new_value);
            let args = single_text(action.text());
            lemma_occurs_split(s, pos, lead, args);
            let p = pos + lead.len();
            let t1 = seq!['('] + action.text();
            assert(args == t1 + seq![',', ')']);
            assert(seq![',', ')'] == seq![','] + seq![')']);
            lemma_occurs_split(s, p, t1, seq![',', ')']);
            lemma_occurs_split(s, p, seq!['('], action.text());
            lemma_occurs_split(s, p + 1 + action.text().len(), seq![','], seq![')']);
            lemma_occurs_char(s, p + 1 + action.text().len(), ',');
        },
        _ => {},
    }
}

/// A `duplicate` that can be written down in full is read back, given that
/// its subtrees are.
proof fn lemma_duplicate_reads_back(s: Seq<char>, pos: int, a: ActionModel)
    requires
        a is Duplicate,
        occurs_at(s, pos, a.text()),
        follows(s, pos + a.text().len()),
        subs_read_back(s, pos, a),
    ensures
        action_at(s, pos) == Outcome::Read(a, a.text().len()),
{
    lemma_one_word(s, pos);
    let word = "duplicate"@;
    let args = args_text(a);
    lemma_occurs_split(s, pos, word, args);
    lemma_pair_reads_back(s, pos + word.len(), first_sub(a), second_sub(a));
    assert(duplicate_at(s, pos + word.len()) == Outcome::Read(a, args.len()));
}

/// A `fragment` that can be written down in full is read back, given that
/// its subtrees are.
proof fn lemma_fragment_reads_back(s: Seq<char>, pos: int, a: ActionModel)
    requires
        a is Fragment,
        a.canonical(),
        occurs_at(s, pos, a.text()),
        follows(s, pos + a.text().len()),
        subs_read_back(s, pos, a),
    ensures
        action_at(s, pos) == Outcome::Read(a, a.text().len()),
{
    lemma_one_word(s, pos);
    match a {
        ActionModel::Fragment { protocol, fragment_size, in_order, overlap, left, right } => {
            let word = "fragment{"@;
            let head = fragment_head_text(protocol, fragment_size, in_order);
            let args = pair_text(left.text(), right.text());
            lemma_occurs_split(s, pos, word + head, args);
            lemma_occurs_split(s, pos, word, head);
            let h = pos + word.len();
            lemma_fragment_head_reads_back(s, h, protocol, fragment_size, in_order);
            lemma_pair_reads_back(s, h + head.len(), *left, *right);
            assert(fragment_at(s, h) == Outcome::Read(a, head.len() + args.len()));
        },
        _ => {},
    }
}

/// A `tamper` that can be written down in full is read back, given that its
/// subtree is.
proof fn lemma_tamper_reads_back(s: Seq<char>, pos: int, a: ActionModel)
    requires
        a is Tamper,
        a.canonical(),
        occurs_at(s, pos, a.text()),
        follows(s, pos + a.text().len()),
        subs_read_back(s, pos, a),
    ensures
        action_at(s, pos) == Outcome::Read(a, a.text().len()),
{
    lemma_one_word(s, pos);
    match a {
        ActionModel::Tamper { protocol, field, new_value, mode, action } => {
            let word = "tamper{"@;
            let head = tamper_head_text(protocol, field, mode, new_value);
            let args = single_text(action.text());
            lemma_occurs_split(s, pos, word + head, args);
            lemma_occurs_split(s, pos, word, head);
            let h = pos + word.len();
            lemma_tamper_head_reads_back(s, h, protocol, field, mode, new_value);
            lemma_single_reads_back(s, h + head.len(), *action);
            assert(tamper_at(s, h) == Outcome::Read(a, head.len() + args.len()));
        },
        _ => {},
    }
}

/// An action tree that can be written down in full is read back from where
/// its text stands, whatever may follow an action there.
pub(crate) proof fn lemma_action_reads_back(s: Seq<char>, pos: int, a: ActionModel)
    requires
        a.canonical(),
        occurs_at(s, pos, a.text()),
        follows(s, pos + a.text().len()),
    ensures
        action_at(s, pos) == Outcome::Read(a, a.text().len()),
    decreases a,
{
    let p = pos + a.text().len() - args_text(a).len();
    if args_text(a).len() > 0 {
        lemma_subs_stand(s, pos, a);
        match a {
            ActionModel::Duplicate { left, right } => {
                lemma_action_reads_back(s, p + 1, *left);
                lemma_action_reads_back(s, p + 2 + left.text().len(), *right);
            },
            ActionModel::Fragment { left, right, .. } => {
                lemma_action_reads_back(s, p + 1, *left);
                lemma_action_reads_back(s, p + 2 + left.text().len(), *right);
            },
            ActionModel::Tamper { action, .. } => {
                lemma_action_reads_back(s, p + 1, *action);
            },
            _ => {},
        }
    }
    match a {
        ActionModel::Send => {
            lemma_nothing_follows(s, pos);
        },
        ActionModel::Drop => {},
        ActionModel::Duplicate { .. } => {
            lemma_duplicate_reads_back(s, pos, a);
        },
        ActionModel::Fragment { .. } => {
            lemma_fragment_reads_back(s, pos, a);
        },
        ActionModel::Tamper { .. } => {
            lemma_tamper_reads_back(s, pos, a);
        },
    }
}

/// A rule that can be written down in full is read back from where its text
/// stands.
pub(crate) proof fn lemma_rule_reads_back(s: Seq<char>, pos: int, r: RuleModel)
    requires
        r.canonical(),
        occurs_at(s, pos, r.text()),
    ensures
        rule_at(s, pos) == Outcome::Read(r, r.text().len()),
        stands(s, pos, '['),
        r.text().len() > 0,
{
    reveal(rule_at);
    reveal(RuleModel::text);
    let t = r.trigger.text();
    let a = r.action.text();
    let t1 = t + seq!['-'];
    let t2 = t1 + a;
    let bar = seq!['-', '|'];
    lemma_occurs_split(s, pos, t2, bar);
    lemma_occurs_split(s, pos, t1, a);
    lemma_occurs_split(s, pos, t, seq!['-']);
    lemma_occurs_char(s, pos + t.len(), '-');
    assert(bar == seq!['-'] + seq!['|']);
    lemma_occurs_split(s, pos + t2.len(), seq!['-'], seq!['|']);
    lemma_occurs_char(s, pos + t2.len(), '-');
    lemma_trigger_reads_back(s, pos, r.trigger);
    lemma_action_reads_back(s, pos + t.len() + 1, r.action);
}

/// One blank before something that is no blank is skipped, and nothing more.
proof fn lemma_one_blank(s: Seq<char>, pos: int)
    requires
        stands(s, pos, ' '),
        pos + 1 == s.len() || !is_blank(s[pos + 1]),
    ensures
        blank_len(s, pos) == 1,
{
    assert(blank_len(s, pos + 1) == 0);
}

/// The outbound side of a strategy is read back from where its text stands
/// before the mark that parts the two sides.
pub(crate) proof fn lemma_outbound_reads_back(s: Seq<char>, pos: int, rules: Seq<RuleModel>)
    requires
        all_canonical(rules),
        occurs_at(s, pos, outbound_text(rules)),
        stands(s, pos + outbound_text(rules).len(), '\\'),
    ensures
        forest_at(s, pos) == Outcome::Read(rules, outbound_text(rules).len()),
    decreases rules.len(),
{
    if rules.len() == 0 {
        assert(rules == Seq::<RuleModel>::empty());
    } else {
        let first = rules[0].text();
        let rest = rules.drop_first();
        let t1 = first + seq![' '];
        lemma_occurs_split(s, pos, t1, outbound_text(rest));
        lemma_occurs_split(s, pos, first, seq![' ']);
        lemma_occurs_char(s, pos + first.len(), ' ');
        lemma_rule_reads_back(s, pos, rules[0]);
        let next = pos + first.len() + 1;
        assert(all_canonical(rest)) by {
            assert forall|i: int| 0 <= i < rest.len() implies (#[trigger] rest[i]).canonical() by {
                assert(rest[i] == rules[i + 1]);
            }
        }
        if rest.len() > 0 {
            let second = rest[0].text();
            lemma_occurs_split(s, next, second + seq![' '], outbound_text(rest.drop_first()));
            lemma_occurs_split(s, next, second, seq![' ']);
            lemma_rule_reads_back(s, next, rest[0]);
        }
        lemma_one_blank(s, pos + first.len());
        lemma_outbound_reads_back(s, next, rest);
        assert(seq![rules[0]] + rest == rules);
    }
}

/// The inbound side of a strategy, as it stands behind the blank that
/// follows the mark.
pub open spec fn inbound_row(rules: Seq<RuleModel>) -> Seq<char> {
    rules[0].text() + inbound_text(rules.drop_first())
}

/// The inbound side of a strategy is read back from where its text stands at
/// the end of the strategy.
pub(crate) proof fn lemma_inbound_reads_back(s: Seq<char>, pos: int, rules: Seq<RuleModel>)
    requires
        rules.len() > 0,
        all_canonical(rules),
        occurs_at(s, pos, inbound_row(rules)),
        pos + inbound_row(rules).len() == s.len(),
    ensures
        forest_at(s, pos) == Outcome::Read(rules, inbound_row(rules).len()),
    decreases rules.len(),
{
    let first = rules[0].text();
    let rest = rules.drop_first();
    lemma_occurs_split(s, pos, first, inbound_text(rest));
    lemma_rule_reads_back(s, pos, rules[0]);
    let end = pos + first.len();
    assert(seq![rules[0]] + rest == rules);
    if rest.len() == 0 {
        assert(blank_len(s, end) == 0);
        assert(forest_at(s, end) == Outcome::Read(Seq::<RuleModel>::empty(), 0));
        assert(rest == Seq::<RuleModel>::empty());
    } else {
        assert(all_canonical(rest)) by {
            assert forall|i: int| 0 <= i < rest.len() implies (#[trigger] rest[i]).canonical() by {
                assert(rest[i] == rules[i + 1]);
            }
        }
        assert(inbound_text(rest) == seq![' '] + inbound_row(rest));
        lemma_occurs_split(s, end, seq![' '], inbound_row(rest));
        lemma_occurs_char(s, end, ' ');
        lemma_occurs_split(s, end + 1, rest[0].text(), inbound_text(rest.drop_first()));
        lemma_rule_reads_back(s, end + 1, rest[0]);
        lemma_one_blank(s, end);
        lemma_inbound_reads_back(s, end + 1, rest);
    }
}

/// A trigger that is read can be written down in full.
pub(crate) proof fn lemma_read_trigger_is_canonical(s: Seq<char>, pos: int)
    requires
        0 <= pos,
    ensures
        trigger_at(s, pos) matches Outcome::Read(t, _) ==> t.canonical(),
{
    let l0 = pos + 1;
    let l1 = l0 + run_len(s, l0, ':', ']');
    let f0 = l1 + 1;
    let f1 = f0 + run_len(s, f0, ':', ']');
    let v0 = f1 + 1;
    if stands(s, f1, ':') {
        lemma_run(s, v0, ':', ']');
    }
}

/// The parameters of `tamper` that are read hold none of the characters that
/// end them, and name a field.
proof fn lemma_read_tamper_head_is_plain(s: Seq<char>, pos: int)
    requires
        0 <= pos,
    ensures
        tamper_head_at(s, pos) matches Outcome::Read(head, _) ==> {
            &&& Field::named(head.0, head.1) is Ok
            &&& free_of(head.0, ':', '}')
            &&& free_of(head.1, ':', '}')
            &&& free_of(head.3, '}', '}')
        },
{
    reveal(tamper_head_at);
    reveal_strlit("replace");
    reveal_strlit("corrupt");
    reveal_strlit("add");
    let l1 = pos + run_len(s, pos, ':', '}');
    let f0 = l1 + 1;
    let f1 = f0 + run_len(s, f0, ':', '}');
    let m0 = f1 + 1;
    if stands(s, l1, ':') && stands(s, f1, ':') {
        lemma_run(s, pos, ':', '}');
        lemma_run(s, f0, ':', '}');
        match mode_at(s, m0) {
            Some(mode) => {
                let m1 = m0 + mode.name().len();
                if stands(s, m1, ':') {
                    lemma_run(s, m1 + 1, '}', '}');
                }
            },
            None => {},
        }
    }
}

/// An action tree that is read can be written down in full.
pub(crate) proof fn lemma_read_action_is_canonical(s: Seq<char>, pos: int)
    requires
        0 <= pos,
    ensures
        action_at(s, pos) matches Outcome::Read(a, _) ==> a.canonical(),
    decreases room(s, pos), 2nat,
{
    if occurs_at(s, pos, "drop"@) {
    } else if occurs_at(s, pos, "duplicate"@) {
        lemma_read_pair_is_canonical(s, pos + "duplicate"@.len());
    } else if occurs_at(s, pos, "fragment{"@) {
        let h = pos + "fragment{"@.len();
        let head = fragment_head_at(s, h);
        if !(head is Broken) {
            lemma_read_pair_is_canonical(s, h + head.consumed());
        }
    } else if occurs_at(s, pos, "tamper{"@) {
        let h = pos + "tamper{"@.len();
        let head = tamper_head_at(s, h);
        lemma_read_tamper_head_is_plain(s, h);
        if !(head is Broken) {
            lemma_read_single_is_canonical(s, h + head.consumed());
        }
    }
}

/// The subtrees of an argument list of two that is read can be written down
/// in full.
proof fn lemma_read_pair_is_canonical(s: Seq<char>, pos: int)
    requires
        0 <= pos,
    ensures
        pair_at(s, pos) matches Outcome::Read(args, _) ==> args.0.canonical()
            && args.1.canonical(),
    decreases room(s, pos), 0nat,
{
    if stands(s, pos, '(') {
        let left = action_at(s, pos + 1);
        lemma_read_action_is_canonical(s, pos + 1);
        let comma = pos + 1 + left.consumed();
        if !(left is Broken) && stands(s, comma, ',') {
            lemma_read_action_is_canonical(s, comma + 1);
        }
    }
}

/// The subtree of an argument list of one that is read can be written down
/// in full.
proof fn lemma_read_single_is_canonical(s: Seq<char>, pos: int)
    requires
        0 <= pos,
    ensures
        single_at(s, pos) matches Outcome::Read(inner, _) ==> inner.canonical(),
    decreases room(s, pos), 0nat,
{
    if stands(s, pos, '(') {
        lemma_read_action_is_canonical(s, pos + 1);
    }
}

/// The rules that are read in a row can each be written down in full.
pub(crate) proof fn lemma_read_forest_is_canonical(s: Seq<char>, pos: int)
    requires
        0 <= pos,
    ensures
        forest_at(s, pos) matches Outcome::Read(rules, _) ==> all_canonical(rules),
    decreases room(s, pos),
{
    if stands(s, pos, '[') {
        reveal(rule_at);
        let rule = rule_at(s, pos);
        let gap = blank_len(s, pos + rule.consumed());
        lemma_read_trigger_is_canonical(s, pos);
        lemma_read_action_is_canonical(s, pos + trigger_at(s, pos).consumed() + 1);
        if !(rule is Broken) {
            lemma_read_forest_is_canonical(s, pos + rule.consumed() + gap);
        }
    }
}

/// Reading, then writing: a strategy that is read can be written down in
/// full, and its text reads back as the same strategy. So the written form
/// of whatever was read is stable.
pub proof fn law_read_strategy_is_canonical(s: Seq<char>)
    ensures
        strategy_of(s) matches Ok(strategy) ==> strategy.canonical() && strategy_of(
            strategy.text(),
        ) == Ok::<StrategyModel, Fault>(strategy),
{
    let start = blank_len(s, 0) as int;
    let outbound = forest_at(s, start);
    let mark = start + outbound.consumed();
    let gap = blank_len(s, mark + 2);
    lemma_read_forest_is_canonical(s, start);
    lemma_read_forest_is_canonical(s, mark + 2 + gap);
    match strategy_of(s) {
        Ok(strategy) => {
            law_written_strategy_reads_back(strategy);
        },
        Err(_) => {},
    }
}

/// The round trip: a text in the written form of a strategy reads as that
/// strategy, and the strategy is written as that text again, to the letter.
///
/// The written form is what [`StrategyModel::text`] gives for a strategy
/// that can be written down in full. A text that reads as a strategy but is
/// not in that form (it spells out a `send`, say, or pads with blanks) comes
/// back in that form, not as it was.
pub proof fn law_round_trip(s: Seq<char>, written: StrategyModel)
    requires
        written.canonical(),
        written.text() == s,
    ensures
        strategy_of(s) matches Ok(read) && read.text() == s,
{
    law_written_strategy_reads_back(written);
}

/// Writing, then reading: the text of a strategy that can be written down in
/// full reads back as that strategy.
pub proof fn law_written_strategy_reads_back(strategy: StrategyModel)
    requires
        strategy.canonical(),
    ensures
        strategy_of(strategy.text()) == Ok::<StrategyModel, Fault>(strategy),
{
    let out = side(strategy.outbound);
    let inb = side(strategy.inbound);
    let o = outbound_text(out);
    let i = inbound_text(inb);
    let mark = seq!['\\', '/'];
    let s = strategy.text();
    assert(s == (o + mark) + i);
    assert(occurs_at(s, 0, s)) by {
        assert(s.subrange(0, s.len() as int) == s);
    }
    lemma_occurs_split(s, 0, o + mark, i);
    lemma_occurs_split(s, 0, o, mark);
    assert(mark == seq!['\\'] + seq!['/']);
    lemma_occurs_split(s, o.len() as int, seq!['\\'], seq!['/']);
    lemma_occurs_char(s, o.len() as int, '\\');
    if out.len() > 0 {
        lemma_occurs_split(s, 0, out[0].text() + seq![' '], outbound_text(out.drop_first()));
        lemma_occurs_split(s, 0, out[0].text(), seq![' ']);
        lemma_rule_reads_back(s, 0, out[0]);
    }
    assert(blank_len(s, 0) == 0);
    lemma_outbound_reads_back(s, 0, out);
    let behind = (o.len() + 2) as int;
    if inb.len() == 0 {
        assert(blank_len(s, behind) == 0);
        assert(inb == Seq::<RuleModel>::empty());
    } else {
        assert(i == seq![' '] + inbound_row(inb));
        lemma_occurs_split(s, behind, seq![' '], inbound_row(inb));
        lemma_occurs_char(s, behind, ' ');
        lemma_occurs_split(s, behind + 1, inb[0].text(), inbound_text(inb.drop_first()));
        lemma_rule_reads_back(s, behind + 1, inb[0]);
        lemma_one_blank(s, behind);
        lemma_inbound_reads_back(s, behind + 1, inb);
    }
}

} // verus!
