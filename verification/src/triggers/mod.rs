//! Triggers decide which packets a rule applies to.
//!
//! A trigger names one header field and a value. It fires on a packet whose
//! field has that value, as long as its budget of firings lasts.

use crate::packet::Packet;
use crate::text::{decimal, free_of, text_of};
use crate::wire::codec::field_matches;
use vstd::prelude::*;

pub mod ip;
pub mod tcp;

pub use ip::{IPField, IPTrigger};
pub use tcp::{TCPField, TCPTrigger};

verus! {

/// The lower-case form of an ASCII capital; any other character itself.
pub open spec fn lower(c: char) -> char {
    if 'A' <= c <= 'Z' {
        ((c as int) + 32) as char
    } else {
        c
    }
}

/// `text` is `name` but for the case of ASCII letters. `name` is in lower
/// case.
pub open spec fn same_ignoring_case(text: Seq<char>, name: Seq<char>) -> bool {
    &&& text.len() == name.len()
    &&& forall|i: int| 0 <= i < text.len() ==> lower(#[trigger] text[i]) == name[i]
}

/// Tests whether a text is a lower-case name written in any case.
pub fn is_name(text: &[char], name: &str) -> (same: bool)
    ensures
        same == same_ignoring_case(text@, name@),
{
    let mut i: usize = 0;
    for c in it: name.chars()
        invariant
            it.seq() == name@,
            i == it.index(),
            i <= text.len(),
            forall|j: int| 0 <= j < i ==> lower(#[trigger] text@[j]) == name@[j],
    {
        if i >= text.len() {
            return false;
        }
        let t = text[i];
        let folded = if 'A' <= t && t <= 'Z' {
            ((t as u8) + 32) as char
        } else {
            t
        };
        if folded != c {
            return false;
        }
        i += 1;
    }
    i == text.len()
}

/// The two header layers that strategies speak of.
#[derive(Debug, Clone, Copy, PartialEq, Eq, Structural)]
pub enum Layer {
    IP,
    TCP,
}

impl Layer {
    /// The layer that a protocol name stands for, in whatever case it is
    /// written.
    pub open spec fn named(text: Seq<char>) -> Option<Layer> {
        if same_ignoring_case(text, "tcp"@) {
            Some(Layer::TCP)
        } else if same_ignoring_case(text, "ip"@) {
            Some(Layer::IP)
        } else {
            None
        }
    }

    /// The name under which a strategy writes the layer.
    pub open spec fn name(self) -> Seq<char> {
        match self {
            Layer::IP => "IP"@,
            Layer::TCP => "TCP"@,
        }
    }

    /// Every layer is found again under its own name.
    pub proof fn lemma_named_inverts_name(self)
        ensures
            Layer::named(self.name()) == Some(self),
    {
        reveal_strlit("IP");
        reveal_strlit("TCP");
        reveal_strlit("ip");
        reveal_strlit("tcp");
        assert("IP"@.len() == 2 && "TCP"@.len() == 3 && "ip"@.len() == 2 && "tcp"@.len() == 3);
    }

    /// Looks up the layer that a protocol name stands for.
    pub fn lookup(text: &[char]) -> (layer: Option<Layer>)
        ensures
            layer == Layer::named(text@),
    {
        if is_name(text, "tcp") {
            Some(Layer::TCP)
        } else if is_name(text, "ip") {
            Some(Layer::IP)
        } else {
            None
        }
    }
}

/// A header field of either layer.
#[derive(Debug, Clone, Copy, PartialEq, Eq, Structural)]
pub enum Field {
    IP(IPField),
    TCP(TCPField),
}

impl Field {
    /// The layer that holds the field.
    pub open spec fn layer(self) -> Layer {
        match self {
            Field::IP(_) => Layer::IP,
            Field::TCP(_) => Layer::TCP,
        }
    }

    /// The name under which a strategy writes the field.
    pub open spec fn name(self) -> Seq<char> {
        match self {
            Field::IP(f) => f.name(),
            Field::TCP(f) => f.name(),
        }
    }

    /// The field that a protocol name and a field name stand for, or the
    /// first of the two names that stands for nothing.
    pub open spec fn named(layer: Seq<char>, field: Seq<char>) -> Result<Field, Seq<char>> {
        match Layer::named(layer) {
            None => Err(layer),
            Some(Layer::IP) => match IPField::named(field) {
                Some(f) => Ok(Field::IP(f)),
                None => Err(field),
            },
            Some(Layer::TCP) => match TCPField::named(field) {
                Some(f) => Ok(Field::TCP(f)),
                None => Err(field),
            },
        }
    }

    /// Every field is found again under its layer's name and its own.
    pub proof fn lemma_named_inverts_name(self)
        ensures
            Field::named(self.layer().name(), self.name()) == Ok::<Field, Seq<char>>(self),
    {
        self.layer().lemma_named_inverts_name();
        match self {
            Field::IP(f) => f.lemma_named_inverts_name(),
            Field::TCP(f) => f.lemma_named_inverts_name(),
        }
    }

    /// Looks up the field that a protocol name and a field name stand for.
    /// The error holds the first of the two names that stands for nothing.
    pub fn lookup(layer: &[char], field: &[char]) -> (found: Result<Field, String>)
        ensures
            match found {
                Ok(f) => Field::named(layer@, field@) == Ok::<Field, Seq<char>>(f),
                Err(name) => Field::named(layer@, field@) == Err::<Field, Seq<char>>(name@),
            },
    {
        assert(layer@.subrange(0, layer@.len() as int) == layer@);
        assert(field@.subrange(0, field@.len() as int) == field@);
        match Layer::lookup(layer) {
            None => Err(text_of(layer, 0, layer.len())),
            Some(Layer::IP) => match IPField::lookup(field, 0, field.len()) {
                Some(f) => Ok(Field::IP(f)),
                None => Err(text_of(field, 0, field.len())),
            },
            Some(Layer::TCP) => match TCPField::lookup(field, 0, field.len()) {
                Some(f) => Ok(Field::TCP(f)),
                None => Err(text_of(field, 0, field.len())),
            },
        }
    }
}

/// The mathematical content of a trigger.
pub struct TriggerModel {
    /// The field that is watched.
    pub field: Field,
    /// The value that the field is compared with, as written.
    pub value: Seq<char>,
    /// How often the trigger may fire; zero for no limit.
    pub gas: nat,
    /// How often the trigger has fired against a limited budget.
    pub fired: nat,
}

impl TriggerModel {
    /// The name of the layer that the trigger looks at.
    pub open spec fn protocol(self) -> Seq<char> {
        self.field.layer().name()
    }

    /// The name of the watched field.
    pub open spec fn field_name(self) -> Seq<char> {
        self.field.name()
    }

    /// The budget as a strategy writes it: nothing for an unlimited trigger.
    pub open spec fn gas_text(self) -> Seq<char> {
        if self.gas > 0 {
            seq![':'] + decimal(self.gas)
        } else {
            Seq::empty()
        }
    }

    /// The trigger is one that a strategy can write down in full: it has not
    /// fired, its budget is a machine number, and its value holds neither of
    /// the characters that end a value.
    pub open spec fn canonical(self) -> bool {
        &&& self.fired == 0
        &&& self.gas <= usize::MAX
        &&& free_of(self.value, ':', ']')
    }

    /// The trigger has fired no more often than a limited budget allows. This
    /// holds of every trigger, from its making on.
    pub open spec fn within_budget(self) -> bool {
        self.gas > 0 ==> self.fired <= self.gas
    }

    /// The budget is used up: the trigger has fired as often as it may.
    pub open spec fn spent(self) -> bool {
        self.gas > 0 && self.fired >= self.gas
    }

    /// The trigger fires on the packet: its budget is not used up, and the
    /// watched field of the packet has the trigger's value.
    pub open spec fn fires(self, pkt: Seq<u8>) -> bool {
        !self.spent() && field_matches(self.field, self.value, pkt)
    }

    /// The trigger after it has seen the packet: one firing further where it
    /// fired against a limited budget, else as before.
    pub open spec fn after(self, pkt: Seq<u8>) -> TriggerModel {
        if self.fires(pkt) && self.gas > 0 {
            TriggerModel { fired: self.fired + 1, ..self }
        } else {
            self
        }
    }

    /// The trigger as a strategy writes it.
    pub open spec fn text(self) -> Seq<char> {
        seq!['['] + self.protocol() + seq![':'] + self.field_name() + seq![':'] + self.value
            + self.gas_text() + seq![']']
    }
}

/// What every trigger offers.
pub trait Trigger: View<V = TriggerModel> {
    /// The name of the layer that the trigger looks at.
    fn protocol(&self) -> (name: String)
        ensures
            name@ == self@.protocol(),
    ;

    /// The name of the field that the trigger watches.
    fn field(&self) -> (name: String)
        ensures
            name@ == self@.field_name(),
    ;

    /// How often the trigger may fire; zero for no limit.
    fn gas(&self) -> (gas: usize)
        ensures
            gas == self@.gas,
    ;

    /// Tests whether the trigger fires on the packet, and counts the firing
    /// against the budget. A trigger whose budget is used up fires on
    /// nothing and stays as it is.
    fn matches(&mut self, pkt: &Packet) -> (hit: bool)
        ensures
            hit == old(self)@.fires(pkt@),
            final(self)@ == old(self)@.after(pkt@),
            final(self)@.within_budget(),
    ;
}

/// A trigger whose budget is used up fires on no packet and does not change
/// any more.
pub proof fn law_spent_trigger_is_inert(t: TriggerModel, pkt: Seq<u8>)
    requires
        t.spent(),
    ensures
        !t.fires(pkt),
        t.after(pkt) == t,
{
}

/// A trigger with a budget of one firing, once it has fired, fires on no
/// packet again, whatever the packet holds.
pub proof fn law_gas_of_one_fires_once(t: TriggerModel, first: Seq<u8>, later: Seq<u8>)
    requires
        t.gas == 1,
        t.fired == 0,
        t.fires(first),
    ensures
        !t.after(first).fires(later),
        t.after(first).after(later) == t.after(first),
{
}

/// The trigger after it has seen a row of packets, one after the other.
pub open spec fn seen_all(t: TriggerModel, packets: Seq<Seq<u8>>) -> TriggerModel
    decreases packets.len(),
{
    if packets.len() == 0 {
        t
    } else {
        seen_all(t, packets.drop_last()).after(packets.last())
    }
}

/// How often the trigger fires on a row of packets that it sees one after
/// the other.
pub open spec fn firings(t: TriggerModel, packets: Seq<Seq<u8>>) -> nat
    decreases packets.len(),
{
    if packets.len() == 0 {
        0
    } else {
        firings(t, packets.drop_last()) + if seen_all(t, packets.drop_last()).fires(
            packets.last(),
        ) {
            1nat
        } else {
            0nat
        }
    }
}

/// Over its lifetime a fresh trigger with a limited budget fires no more
/// often than the budget allows, whatever packets it sees; and it counts
/// every firing.
pub proof fn law_budget_bounds_firings(t: TriggerModel, packets: Seq<Seq<u8>>)
    requires
        t.gas > 0,
        t.fired == 0,
    ensures
        firings(t, packets) <= t.gas,
        seen_all(t, packets).fired == firings(t, packets),
        seen_all(t, packets).gas == t.gas,
    decreases packets.len(),
{
    if packets.len() > 0 {
        law_budget_bounds_firings(t, packets.drop_last());
    }
}

/// A trigger never fires more often than its budget allows: the count of
/// firings stays within a limited budget.
pub proof fn law_firings_stay_in_budget(t: TriggerModel, pkt: Seq<u8>)
    requires
        t.gas > 0,
        t.fired <= t.gas,
    ensures
        t.after(pkt).fired <= t.gas,
        t.after(pkt).gas == t.gas,
        t.fires(pkt) ==> t.after(pkt).fired == t.fired + 1,
{
}

/// A trigger of either layer.
#[derive(Debug)]
pub enum GenevaTrigger {
    /// A trigger on the IPv4 header.
    IP(IPTrigger),
    /// A trigger on the TCP header.
    TCP(TCPTrigger),
}

impl View for GenevaTrigger {
    type V = TriggerModel;

    open spec fn view(&self) -> TriggerModel {
        match self {
            GenevaTrigger::IP(t) => t@,
            GenevaTrigger::TCP(t) => t@,
        }
    }
}

impl Clone for GenevaTrigger {
    fn clone(&self) -> (c: GenevaTrigger)
        ensures
            c@ == self@,
    {
        match self {
            GenevaTrigger::IP(t) => GenevaTrigger::IP(t.clone()),
            GenevaTrigger::TCP(t) => GenevaTrigger::TCP(t.clone()),
        }
    }
}

impl Trigger for GenevaTrigger {
    fn protocol(&self) -> (name: String) {
        match self {
            GenevaTrigger::IP(t) => t.protocol(),
            GenevaTrigger::TCP(t) => t.protocol(),
        }
    }

    fn field(&self) -> (name: String) {
        match self {
            GenevaTrigger::IP(t) => t.field(),
            GenevaTrigger::TCP(t) => t.field(),
        }
    }

    fn gas(&self) -> (gas: usize) {
        match self {
            GenevaTrigger::IP(t) => t.gas(),
            GenevaTrigger::TCP(t) => t.gas(),
        }
    }

    fn matches(&mut self, pkt: &Packet) -> (hit: bool) {
        match self {
            GenevaTrigger::IP(t) => t.matches(pkt),
            GenevaTrigger::TCP(t) => t.matches(pkt),
        }
    }
}

impl GenevaTrigger {
    /// The trigger in the form in which a strategy writes it.
    pub fn to_string(&self) -> (text: String)
        ensures
            text@ == self@.text(),
    {
        match self {
            GenevaTrigger::IP(t) => t.to_string(),
            GenevaTrigger::TCP(t) => t.to_string(),
        }
    }
}

} // verus!
