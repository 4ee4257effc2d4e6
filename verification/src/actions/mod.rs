//! Actions rewrite a packet: each takes one packet and gives back the packets
//! that leave in its place.
//!
//! Actions form a tree. `send` and `drop` are its leaves; `duplicate` and
//! `fragment` hand two packets to two subtrees, `tamper` hands one changed
//! packet to one subtree.

use crate::actions::fragment::{fragment, fragments};
use crate::actions::tamper::{tamper, tampered};
use crate::errors::{Error, Fault};
use crate::packet::Packet;
use crate::text::{decimal, free_of};
use crate::triggers::{Field, GenevaTrigger, Trigger, TriggerModel};
use vstd::prelude::*;
use vstd::std_specs::convert::FromSpecImpl;
use vstd::string::StringExecFns;

pub mod fragment;
pub mod tamper;

pub use fragment::FragmentAction;
pub use tamper::{TamperAction, TamperMode};

verus! {

/// The mathematical content of an action tree.
#[allow(inconsistent_fields)]
pub enum ActionModel {
    Send,
    Drop,
    Duplicate { left: Box<ActionModel>, right: Box<ActionModel> },
    Fragment {
        protocol: u16,
        fragment_size: u16,
        in_order: bool,
        overlap: u16,
        left: Box<ActionModel>,
        right: Box<ActionModel>,
    },
    Tamper {
        protocol: Seq<char>,
        field: Seq<char>,
        new_value: Seq<char>,
        mode: TamperMode,
        action: Box<ActionModel>,
    },
}

/// The argument list of an action with two subtrees, given their texts. A
/// list of two `send`s is left out altogether.
pub open spec fn pair_text(left: Seq<char>, right: Seq<char>) -> Seq<char> {
    if left.len() + right.len() == 0 {
        Seq::empty()
    } else {
        seq!['('] + left + seq![','] + right + seq![')']
    }
}

/// The argument list of an action with one subtree, given its text. The comma
/// tells it from a list of two; a lone `send` is left out altogether.
pub open spec fn single_text(inner: Seq<char>) -> Seq<char> {
    if inner.len() == 0 {
        Seq::empty()
    } else {
        seq!['('] + inner + seq![',', ')']
    }
}

/// How a strategy writes the order flag of `fragment`.
pub open spec fn order_text(in_order: bool) -> Seq<char> {
    if in_order {
        "True"@
    } else {
        "False"@
    }
}

/// How a strategy writes the value of `tamper`: always for `replace`,
/// otherwise only where there is one.
pub open spec fn value_text(mode: TamperMode, new_value: Seq<char>) -> Seq<char> {
    if mode == TamperMode::Replace || new_value.len() > 0 {
        seq![':'] + new_value
    } else {
        Seq::empty()
    }
}

/// The parameters of `fragment`, closed by a brace, as a strategy writes
/// them.
pub open spec fn fragment_head_text(protocol: u16, size: u16, in_order: bool) -> Seq<char> {
    decimal(protocol as nat) + seq![':'] + decimal(size as nat) + seq![':'] + order_text(in_order)
        + seq!['}']
}

/// The parameters of `tamper`, closed by a brace, as a strategy writes them.
pub open spec fn tamper_head_text(
    protocol: Seq<char>,
    field: Seq<char>,
    mode: TamperMode,
    new_value: Seq<char>,
) -> Seq<char> {
    protocol + seq![':'] + field + seq![':'] + mode.name() + value_text(mode, new_value)
        + seq!['}']
}

/// What two subtrees make of their packets, one behind the other: the first
/// failure, or the packets of the first before the packets of the second.
pub open spec fn joined(
    first: Result<Seq<Seq<u8>>, Fault>,
    second: Result<Seq<Seq<u8>>, Fault>,
) -> Result<Seq<Seq<u8>>, Fault> {
    match first {
        Err(e) => Err(e),
        Ok(a) => match second {
            Err(e) => Err(e),
            Ok(b) => Ok(a + b),
        },
    }
}

/// What the two subtrees of `fragment` make of the two pieces: the first
/// failure, left before right, or the packets of both in the order asked
/// for.
pub open spec fn fragment_run(
    left: Result<Seq<Seq<u8>>, Fault>,
    right: Result<Seq<Seq<u8>>, Fault>,
    in_order: bool,
) -> Result<Seq<Seq<u8>>, Fault> {
    match left {
        Err(e) => Err(e),
        Ok(a) => match right {
            Err(e) => Err(e),
            Ok(b) => if in_order {
                Ok(a + b)
            } else {
                Ok(b + a)
            },
        },
    }
}

/// The result of running an action is what the model asks for.
pub open spec fn ran(out: Result<Vec<Packet>, Error>, wanted: Result<Seq<Seq<u8>>, Fault>)
    -> bool {
    match out {
        Ok(packets) => wanted == Ok::<_, Fault>(packets.deep_view()),
        Err(e) => wanted == Err::<Seq<Seq<u8>>, _>(e@),
    }
}

impl ActionModel {
    /// What the action tree makes of a packet: the packets that leave in its
    /// place, in order, or the first failure met on the way.
    ///
    /// `send` gives the packet itself, `drop` gives nothing. `duplicate`
    /// runs both subtrees on the packet and gives what the left one made
    /// before what the right one made. `fragment` cuts the packet and runs
    /// the left subtree on the first piece, the right one on the second; out
    /// of order, what the right one made comes first. `tamper` changes the
    /// packet and runs its subtree on the result.
    pub open spec fn run(self, pkt: Seq<u8>) -> Result<Seq<Seq<u8>>, Fault>
        decreases self,
    {
        match self {
            ActionModel::Send => Ok(seq![pkt]),
            ActionModel::Drop => Ok(Seq::empty()),
            ActionModel::Duplicate { left, right } => joined(left.run(pkt), right.run(pkt)),
            ActionModel::Fragment { protocol, fragment_size, in_order, overlap, left, right } =>
                match fragments(protocol, fragment_size, pkt) {
                    Err(e) => Err(e),
                    Ok(pieces) => fragment_run(left.run(pieces.0), right.run(pieces.1), in_order),
                },
            ActionModel::Tamper { protocol, field, new_value, mode, action } => match tampered(
                protocol,
                field,
                mode,
                new_value,
                pkt,
            ) {
                Err(e) => Err(e),
                Ok(changed) => action.run(changed),
            },
        }
    }

    /// The action tree is one that a strategy can write down in full: no
    /// `fragment` in it overlaps, and every `tamper` names a field of a known
    /// protocol and a value without a closing brace.
    pub open spec fn canonical(self) -> bool
        decreases self,
    {
        match self {
            ActionModel::Send => true,
            ActionModel::Drop => true,
            ActionModel::Duplicate { left, right } => left.canonical() && right.canonical(),
            ActionModel::Fragment { protocol, fragment_size, in_order, overlap, left, right } => {
                &&& overlap == 0
                &&& left.canonical()
                &&& right.canonical()
            },
            ActionModel::Tamper { protocol, field, new_value, mode, action } => {
                &&& Field::named(protocol, field) is Ok
                &&& free_of(protocol, ':', '}')
                &&& free_of(field, ':', '}')
                &&& free_of(new_value, '}', '}')
                &&& action.canonical()
            },
        }
    }

    /// The action tree as a strategy writes it. `send` is written as nothing.
    pub open spec fn text(self) -> Seq<char>
        decreases self,
    {
        match self {
            ActionModel::Send => Seq::empty(),
            ActionModel::Drop => "drop"@,
            ActionModel::Duplicate { left, right } => "duplicate"@ + pair_text(
                left.text(),
                right.text(),
            ),
            ActionModel::Fragment { protocol, fragment_size, in_order, overlap, left, right } =>
                "fragment{"@ + fragment_head_text(protocol, fragment_size, in_order) + pair_text(
                    left.text(),
                    right.text(),
                ),
            ActionModel::Tamper { protocol, field, new_value, mode, action } => "tamper{"@
                + tamper_head_text(protocol, field, mode, new_value) + single_text(action.text()),
        }
    }
}

/// Passes the packet on unchanged.
#[derive(Debug, Clone, Copy)]
pub struct SendAction {}

/// Discards the packet.
#[derive(Debug, Clone, Copy)]
pub struct DropAction {}

/// Copies the packet and hands the packet to one subtree, the copy to the
/// other.
#[derive(Debug)]
pub struct DuplicateAction {
    pub left: Box<GenevaAction>,
    pub right: Box<GenevaAction>,
}

/// An action of any kind.
#[derive(Debug)]
pub enum GenevaAction {
    Send(SendAction),
    Drop(DropAction),
    Duplicate(DuplicateAction),
    Fragment(FragmentAction),
    Tamper(TamperAction),
}

impl GenevaAction {
    /// The mathematical content of the action tree.
    pub open spec fn model(&self) -> ActionModel
        decreases self,
    {
        match self {
            GenevaAction::Send(_) => ActionModel::Send,
            GenevaAction::Drop(_) => ActionModel::Drop,
            GenevaAction::Duplicate(a) => ActionModel::Duplicate {
                left: Box::new(a.left.model()),
                right: Box::new(a.right.model()),
            },
            GenevaAction::Fragment(a) => ActionModel::Fragment {
                protocol: a.protocol,
                fragment_size: a.fragment_size,
                in_order: a.in_order,
                overlap: a._overlap,
                left: Box::new(a.left_action.model()),
                right: Box::new(a.right_action.model()),
            },
            GenevaAction::Tamper(a) => ActionModel::Tamper {
                protocol: a.protocol@,
                field: a.field@,
                new_value: a.new_value@,
                mode: a.mode,
                action: Box::new(a.action.model()),
            },
        }
    }
}

impl View for GenevaAction {
    type V = ActionModel;

    open spec fn view(&self) -> ActionModel {
        self.model()
    }
}

impl View for SendAction {
    type V = ActionModel;

    open spec fn view(&self) -> ActionModel {
        ActionModel::Send
    }
}

impl View for DropAction {
    type V = ActionModel;

    open spec fn view(&self) -> ActionModel {
        ActionModel::Drop
    }
}

impl View for DuplicateAction {
    type V = ActionModel;

    open spec fn view(&self) -> ActionModel {
        ActionModel::Duplicate { left: Box::new(self.left@), right: Box::new(self.right@) }
    }
}

impl GenevaAction {
    /// An independent copy of the action tree.
    pub fn copy(&self) -> (c: GenevaAction)
        ensures
            c@ == self@,
        decreases self,
    {
        match self {
            GenevaAction::Send(_) => GenevaAction::Send(SendAction {  }),
            GenevaAction::Drop(_) => GenevaAction::Drop(DropAction {  }),
            GenevaAction::Duplicate(a) => GenevaAction::Duplicate(
                DuplicateAction { left: Box::new(a.left.copy()), right: Box::new(a.right.copy()) },
            ),
            GenevaAction::Fragment(a) => GenevaAction::Fragment(
                FragmentAction {
                    protocol: a.protocol,
                    fragment_size: a.fragment_size,
                    in_order: a.in_order,
                    _overlap: a._overlap,
                    left_action: Box::new(a.left_action.copy()),
                    right_action: Box::new(a.right_action.copy()),
                },
            ),
            GenevaAction::Tamper(a) => GenevaAction::Tamper(
                TamperAction {
                    protocol: a.protocol.clone(),
                    field: a.field.clone(),
                    new_value: a.new_value.clone(),
                    mode: a.mode,
                    action: Box::new(a.action.copy()),
                },
            ),
        }
    }
}

impl Clone for GenevaAction {
    fn clone(&self) -> (c: GenevaAction)
        ensures
            c@ == self@,
    {
        self.copy()
    }
}

impl Clone for DuplicateAction {
    fn clone(&self) -> (c: DuplicateAction)
        ensures
            c@ == self@,
    {
        DuplicateAction { left: Box::new(self.left.copy()), right: Box::new(self.right.copy()) }
    }
}

impl From<SendAction> for GenevaAction {
    fn from(a: SendAction) -> (action: GenevaAction) {
        GenevaAction::Send(a)
    }
}

impl FromSpecImpl<SendAction> for GenevaAction {
    open spec fn obeys_from_spec() -> bool {
        true
    }

    open spec fn from_spec(a: SendAction) -> GenevaAction {
        GenevaAction::Send(a)
    }
}

impl From<DropAction> for GenevaAction {
    fn from(a: DropAction) -> (action: GenevaAction) {
        GenevaAction::Drop(a)
    }
}

impl FromSpecImpl<DropAction> for GenevaAction {
    open spec fn obeys_from_spec() -> bool {
        true
    }

    open spec fn from_spec(a: DropAction) -> GenevaAction {
        GenevaAction::Drop(a)
    }
}

impl From<DuplicateAction> for GenevaAction {
    fn from(a: DuplicateAction) -> (action: GenevaAction) {
        GenevaAction::Duplicate(a)
    }
}

impl FromSpecImpl<DuplicateAction> for GenevaAction {
    open spec fn obeys_from_spec() -> bool {
        true
    }

    open spec fn from_spec(a: DuplicateAction) -> GenevaAction {
        GenevaAction::Duplicate(a)
    }
}

impl From<FragmentAction> for GenevaAction {
    fn from(a: FragmentAction) -> (action: GenevaAction) {
        GenevaAction::Fragment(a)
    }
}

impl FromSpecImpl<FragmentAction> for GenevaAction {
    open spec fn obeys_from_spec() -> bool {
        true
    }

    open spec fn from_spec(a: FragmentAction) -> GenevaAction {
        GenevaAction::Fragment(a)
    }
}

impl From<TamperAction> for GenevaAction {
    fn from(a: TamperAction) -> (action: GenevaAction) {
        GenevaAction::Tamper(a)
    }
}

impl FromSpecImpl<TamperAction> for GenevaAction {
    open spec fn obeys_from_spec() -> bool {
        true
    }

    open spec fn from_spec(a: TamperAction) -> GenevaAction {
        GenevaAction::Tamper(a)
    }
}

impl Default for SendAction {
    fn default() -> (a: SendAction)
        ensures
            a@ == ActionModel::Send,
    {
        SendAction {  }
    }
}

impl Default for DropAction {
    fn default() -> (a: DropAction)
        ensures
            a@ == ActionModel::Drop,
    {
        DropAction {  }
    }
}

/// Appends the argument list of an action with two subtrees.
pub fn push_pair(out: &mut String, left: &String, right: &String)
    ensures
        final(out)@ == old(out)@ + pair_text(left@, right@),
{
    if !(left.as_str().is_empty() && right.as_str().is_empty()) {
        out.push('(');
        out.append(left.as_str());
        out.push(',');
        out.append(right.as_str());
        out.push(')');
    }
    assert(final(out)@ == old(out)@ + pair_text(left@, right@));
}

/// `drop` makes nothing of any packet.
pub proof fn law_drop_absorbs(pkt: Seq<u8>)
    ensures
        ActionModel::Drop.run(pkt) == Ok::<_, Fault>(Seq::<Seq<u8>>::empty()),
{
}

/// `send` makes of any packet the packet itself.
pub proof fn law_send_passes(pkt: Seq<u8>)
    ensures
        ActionModel::Send.run(pkt) == Ok::<_, Fault>(seq![pkt]),
{
}

/// `duplicate` with two `send`s makes of any packet the packet twice.
pub proof fn law_duplicate_doubles(pkt: Seq<u8>)
    ensures
        (ActionModel::Duplicate {
            left: Box::new(ActionModel::Send),
            right: Box::new(ActionModel::Send),
        }).run(pkt) == Ok::<_, Fault>(seq![pkt, pkt]),
{
    law_duplicate_forks(ActionModel::Send, ActionModel::Send, pkt);
    assert(seq![pkt] + seq![pkt] =~= seq![pkt, pkt]);
}

/// `duplicate` hands the same packet to both subtrees: what it makes is what
/// the left subtree makes of the packet before what the right one makes of
/// it.
pub proof fn law_duplicate_forks(left: ActionModel, right: ActionModel, pkt: Seq<u8>)
    ensures
        (ActionModel::Duplicate { left: Box::new(left), right: Box::new(right) }).run(pkt)
            == joined(left.run(pkt), right.run(pkt)),
{
}

/// `fragment` with two `send`s gives the two pieces of the packet: in order,
/// the first piece before the second; out of order, the second piece before
/// the first. A packet that cannot be cut gives the failure of the cut.
pub proof fn law_fragment_order(protocol: u16, size: u16, in_order: bool, pkt: Seq<u8>)
    ensures
        (ActionModel::Fragment {
            protocol,
            fragment_size: size,
            in_order,
            overlap: 0,
            left: Box::new(ActionModel::Send),
            right: Box::new(ActionModel::Send),
        }).run(pkt) == match fragments(protocol, size, pkt) {
            Err(e) => Err::<Seq<Seq<u8>>, _>(e),
            Ok(pieces) => if in_order {
                Ok(seq![pieces.0, pieces.1])
            } else {
                Ok(seq![pieces.1, pieces.0])
            },
        },
{
    match fragments(protocol, size, pkt) {
        Ok(pieces) => {
            law_send_passes(pieces.0);
            law_send_passes(pieces.1);
            assert(seq![pieces.0] + seq![pieces.1] =~= seq![pieces.0, pieces.1]);
            assert(seq![pieces.1] + seq![pieces.0] =~= seq![pieces.1, pieces.0]);
        },
        Err(_) => {},
    }
}

/// Only `send` is written as nothing, so an argument list is left out
/// exactly where every subtree in it is `send`.
pub proof fn law_only_send_is_elided(a: ActionModel)
    ensures
        a.text().len() == 0 <==> a == ActionModel::Send,
{
    reveal_strlit("drop");
    reveal_strlit("duplicate");
    reveal_strlit("fragment{");
    reveal_strlit("tamper{");
}

/// What every action offers.
pub trait Action: View<V = ActionModel> {
    /// Runs the action on a packet and gives the packets that leave in its
    /// place, in order.
    fn run(&self, pkt: Packet) -> (out: Result<Vec<Packet>, Error>)
        ensures
            ran(out, self@.run(pkt@)),
    ;
}

impl Action for SendAction {
    fn run(&self, pkt: Packet) -> (out: Result<Vec<Packet>, Error>) {
        SendAction::run(self, pkt)
    }
}

impl Action for DropAction {
    fn run(&self, pkt: Packet) -> (out: Result<Vec<Packet>, Error>) {
        DropAction::run(self, pkt)
    }
}

impl Action for DuplicateAction {
    fn run(&self, pkt: Packet) -> (out: Result<Vec<Packet>, Error>) {
        DuplicateAction::run(self, pkt)
    }
}

impl Action for FragmentAction {
    fn run(&self, pkt: Packet) -> (out: Result<Vec<Packet>, Error>) {
        FragmentAction::run(self, pkt)
    }
}

impl Action for TamperAction {
    fn run(&self, pkt: Packet) -> (out: Result<Vec<Packet>, Error>) {
        TamperAction::run(self, pkt)
    }
}

impl Action for GenevaAction {
    fn run(&self, pkt: Packet) -> (out: Result<Vec<Packet>, Error>) {
        GenevaAction::run(self, pkt)
    }
}

/// Puts the packets of two subtrees one behind the other.
pub fn join(first: Vec<Packet>, second: Vec<Packet>) -> (out: Vec<Packet>)
    ensures
        out.deep_view() == first.deep_view() + second.deep_view(),
{
    let mut out = first;
    let mut more = second;
    out.append(&mut more);
    assert(out.deep_view() =~= first.deep_view() + second.deep_view());
    out
}

impl SendAction {
    /// Passes the packet on: the result is the packet itself.
    pub fn run(&self, pkt: Packet) -> (out: Result<Vec<Packet>, Error>)
        ensures
            ran(out, self@.run(pkt@)),
            out matches Ok(packets) && packets.deep_view() == seq![pkt@],
    {
        let mut out: Vec<Packet> = Vec::new();
        out.push(pkt);
        assert(out.deep_view() =~= seq![pkt@]);
        Ok(out)
    }

    /// The action as a strategy writes it: nothing.
    pub fn to_string(&self) -> (text: String)
        ensures
            text@ == self@.text(),
    {
        String::new()
    }
}

impl DropAction {
    /// Discards the packet: the result is empty.
    pub fn run(&self, pkt: Packet) -> (out: Result<Vec<Packet>, Error>)
        ensures
            ran(out, self@.run(pkt@)),
            out matches Ok(packets) && packets.deep_view() == Seq::<Seq<u8>>::empty(),
    {
        let out: Vec<Packet> = Vec::new();
        assert(out.deep_view() =~= Seq::<Seq<u8>>::empty());
        Ok(out)
    }

    /// The action as a strategy writes it.
    pub fn to_string(&self) -> (text: String)
        ensures
            text@ == self@.text(),
    {
        String::from_str("drop")
    }
}

impl DuplicateAction {
    /// Duplicates into the two given subtrees.
    pub fn new(left: GenevaAction, right: GenevaAction) -> (a: DuplicateAction)
        ensures
            a@ == (ActionModel::Duplicate { left: Box::new(left@), right: Box::new(right@) }),
    {
        DuplicateAction { left: Box::new(left), right: Box::new(right) }
    }

    /// Runs the left subtree on the packet and the right subtree on a copy
    /// of it; what the left one made comes first.
    pub fn run(&self, pkt: Packet) -> (out: Result<Vec<Packet>, Error>)
        ensures
            ran(out, self@.run(pkt@)),
        decreases self,
    {
        let copy = pkt.clone();
        let first = match self.left.run(pkt) {
            Ok(packets) => packets,
            Err(e) => {
                return Err(e);
            },
        };
        let second = match self.right.run(copy) {
            Ok(packets) => packets,
            Err(e) => {
                return Err(e);
            },
        };
        Ok(join(first, second))
    }

    /// The action tree as a strategy writes it.
    pub fn to_string(&self) -> (text: String)
        ensures
            text@ == self@.text(),
        decreases self,
    {
        let left = self.left.to_string();
        let right = self.right.to_string();
        let mut text = String::from_str("duplicate");
        push_pair(&mut text, &left, &right);
        text
    }
}

impl GenevaAction {
    /// Runs the action tree on a packet and gives the packets that leave in
    /// its place, in order, or the first failure met on the way.
    pub fn run(&self, pkt: Packet) -> (out: Result<Vec<Packet>, Error>)
        ensures
            ran(out, self@.run(pkt@)),
        decreases self,
    {
        match self {
            GenevaAction::Send(a) => a.run(pkt),
            GenevaAction::Drop(a) => a.run(pkt),
            GenevaAction::Duplicate(a) => a.run(pkt),
            GenevaAction::Fragment(a) => a.run(pkt),
            GenevaAction::Tamper(a) => a.run(pkt),
        }
    }

    /// The action tree as a strategy writes it.
    pub fn to_string(&self) -> (text: String)
        ensures
            text@ == self@.text(),
        decreases self,
    {
        match self {
            GenevaAction::Send(a) => a.to_string(),
            GenevaAction::Drop(a) => a.to_string(),
            GenevaAction::Duplicate(a) => a.to_string(),
            GenevaAction::Fragment(a) => a.to_string(),
            GenevaAction::Tamper(a) => a.to_string(),
        }
    }
}

/// The mathematical content of a rule.
pub struct RuleModel {
    pub trigger: TriggerModel,
    pub action: ActionModel,
}

impl RuleModel {
    /// The rule is one that a strategy can write down in full.
    pub open spec fn canonical(self) -> bool {
        self.trigger.canonical() && self.action.canonical()
    }

    /// The rule as a strategy writes it.
    #[verifier::opaque]
    pub open spec fn text(self) -> Seq<char> {
        self.trigger.text() + seq!['-'] + self.action.text() + seq!['-', '|']
    }
}

/// One rule: a trigger and the action tree that runs where the trigger fires.
#[derive(Debug)]
pub struct ActionTree {
    /// Decides which packets the rule applies to.
    pub trigger: GenevaTrigger,
    /// The root of the action tree.
    pub root_action: Box<GenevaAction>,
}

impl View for ActionTree {
    type V = RuleModel;

    open spec fn view(&self) -> RuleModel {
        RuleModel { trigger: self.trigger@, action: self.root_action@ }
    }
}

impl ActionTree {
    /// Tests whether the rule's trigger fires on the packet, and counts the
    /// firing against the trigger's budget.
    pub fn matches(&mut self, pkt: &Packet) -> (hit: bool)
        ensures
            hit == old(self)@.trigger.fires(pkt@),
            final(self)@ == (RuleModel {
                trigger: old(self)@.trigger.after(pkt@),
                action: old(self)@.action,
            }),
    {
        self.trigger.matches(pkt)
    }

    /// Runs the rule's action tree on the packet.
    pub fn apply(&self, pkt: Packet) -> (out: Result<Vec<Packet>, Error>)
        ensures
            ran(out, self@.action.run(pkt@)),
    {
        self.root_action.run(pkt)
    }

    /// The rule as a strategy writes it.
    pub fn to_string(&self) -> (text: String)
        ensures
            text@ == self@.text(),
    {
        reveal(RuleModel::text);
        let mut text = self.trigger.to_string();
        text.push('-');
        let action = self.root_action.to_string();
        text.append(action.as_str());
        text.push('-');
        text.push('|');
        text
    }
}

} // verus!
