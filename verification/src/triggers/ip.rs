//! Triggers on the IPv4 header.

use crate::errors::{Error, Fault};
use crate::packet::Packet;
use crate::wire::codec::matches_field;
use crate::text::{all_word, chars_of, push_decimal, text_is};
use crate::triggers::{Field, Trigger, TriggerModel};
use vstd::prelude::*;
use vstd::string::StringExecFns;

verus! {

/// The fields of the IPv4 header that a trigger can watch.
#[derive(Debug, Clone, Copy, PartialEq, Eq, Structural)]
pub enum IPField {
    Version,
    IHL,
    TOS,
    Length,
    Identification,
    Flags,
    FragmentOffset,
    TTL,
    Protocol,
    Checksum,
    SourceAddress,
    DestAddress,
    Payload,
}

impl IPField {
    /// The name under which the field is written in a strategy.
    pub open spec fn name(self) -> Seq<char> {
        match self {
            IPField::Version => "version"@,
            IPField::IHL => "ihl"@,
            IPField::TOS => "tos"@,
            IPField::Length => "len"@,
            IPField::Identification => "id"@,
            IPField::Flags => "flags"@,
            IPField::FragmentOffset => "frag"@,
            IPField::TTL => "ttl"@,
            IPField::Protocol => "protocol"@,
            IPField::Checksum => "chksum"@,
            IPField::SourceAddress => "src"@,
            IPField::DestAddress => "dst"@,
            IPField::Payload => "load"@,
        }
    }

    /// The field that a name stands for. Besides the names that [`name`]
    /// gives, the type-of-service field also answers to `TOS`.
    ///
    /// [`name`]: IPField::name
    pub open spec fn named(text: Seq<char>) -> Option<IPField> {
        if text == "version"@ {
            Some(IPField::Version)
        } else if text == "ihl"@ {
            Some(IPField::IHL)
        } else if text == "tos"@ || text == "TOS"@ {
            Some(IPField::TOS)
        } else if text == "len"@ {
            Some(IPField::Length)
        } else if text == "id"@ {
            Some(IPField::Identification)
        } else if text == "flags"@ {
            Some(IPField::Flags)
        } else if text == "frag"@ {
            Some(IPField::FragmentOffset)
        } else if text == "ttl"@ {
            Some(IPField::TTL)
        } else if text == "protocol"@ {
            Some(IPField::Protocol)
        } else if text == "chksum"@ {
            Some(IPField::Checksum)
        } else if text == "src"@ {
            Some(IPField::SourceAddress)
        } else if text == "dst"@ {
            Some(IPField::DestAddress)
        } else if text == "load"@ {
            Some(IPField::Payload)
        } else {
            None
        }
    }

    /// Every field is found again under its own name.
    pub proof fn lemma_named_inverts_name(self)
        ensures
            IPField::named(self.name()) == Some(self),
    {
        reveal_strlit("version");
        reveal_strlit("ihl");
        reveal_strlit("tos");
        reveal_strlit("TOS");
        reveal_strlit("len");
        reveal_strlit("id");
        reveal_strlit("flags");
        reveal_strlit("frag");
        reveal_strlit("ttl");
        reveal_strlit("protocol");
        reveal_strlit("chksum");
        reveal_strlit("src");
        reveal_strlit("dst");
        reveal_strlit("load");
        assert("ihl"@[0] == 'i' && "tos"@[0] == 't' && "TOS"@[0] == 'T' && "len"@[0] == 'l'
            && "ttl"@[0] == 't' && "src"@[0] == 's' && "dst"@[0] == 'd');
        assert("tos"@[1] == 'o' && "ttl"@[1] == 't');
        assert("frag"@[0] == 'f' && "load"@[0] == 'l');
        assert("version"@.len() == 7 && "ihl"@.len() == 3 && "tos"@.len() == 3 && "TOS"@.len() == 3
            && "len"@.len() == 3 && "id"@.len() == 2 && "flags"@.len() == 5 && "frag"@.len() == 4
            && "ttl"@.len() == 3 && "protocol"@.len() == 8 && "chksum"@.len() == 6 && "src"@.len()
            == 3 && "dst"@.len() == 3 && "load"@.len() == 4);
    }

    /// Field names are made of letters, digits and hyphens.
    pub proof fn lemma_name_is_word(self)
        ensures
            all_word(self.name()),
    {
        match self {
            IPField::Version => {
                reveal_strlit("version");
            },
            IPField::IHL => {
                reveal_strlit("ihl");
            },
            IPField::TOS => {
                reveal_strlit("tos");
            },
            IPField::Length => {
                reveal_strlit("len");
            },
            IPField::Identification => {
                reveal_strlit("id");
            },
            IPField::Flags => {
                reveal_strlit("flags");
            },
            IPField::FragmentOffset => {
                reveal_strlit("frag");
            },
            IPField::TTL => {
                reveal_strlit("ttl");
            },
            IPField::Protocol => {
                reveal_strlit("protocol");
            },
            IPField::Checksum => {
                reveal_strlit("chksum");
            },
            IPField::SourceAddress => {
                reveal_strlit("src");
            },
            IPField::DestAddress => {
                reveal_strlit("dst");
            },
            IPField::Payload => {
                reveal_strlit("load");
            },
        }
    }

    /// The name under which the field is written in a strategy.
    pub fn as_str(&self) -> (name: &'static str)
        ensures
            name@ == self.name(),
    {
        match self {
            IPField::Version => "version",
            IPField::IHL => "ihl",
            IPField::TOS => "tos",
            IPField::Length => "len",
            IPField::Identification => "id",
            IPField::Flags => "flags",
            IPField::FragmentOffset => "frag",
            IPField::TTL => "ttl",
            IPField::Protocol => "protocol",
            IPField::Checksum => "chksum",
            IPField::SourceAddress => "src",
            IPField::DestAddress => "dst",
            IPField::Payload => "load",
        }
    }

    /// The field's name as an owned string.
    pub fn to_string(&self) -> (name: String)
        ensures
            name@ == self.name(),
    {
        String::from_str(self.as_str())
    }

    /// Looks up the field named by the text between two positions of a buffer.
    pub(crate) fn lookup(chars: &[char], from: usize, to: usize) -> (field: Option<IPField>)
        requires
            from <= to <= chars.len(),
        ensures
            field == IPField::named(chars@.subrange(from as int, to as int)),
    {
        if text_is(chars, from, to, "version") {
            Some(IPField::Version)
        } else if text_is(chars, from, to, "ihl") {
            Some(IPField::IHL)
        } else if text_is(chars, from, to, "tos") || text_is(chars, from, to, "TOS") {
            Some(IPField::TOS)
        } else if text_is(chars, from, to, "len") {
            Some(IPField::Length)
        } else if text_is(chars, from, to, "id") {
            Some(IPField::Identification)
        } else if text_is(chars, from, to, "flags") {
            Some(IPField::Flags)
        } else if text_is(chars, from, to, "frag") {
            Some(IPField::FragmentOffset)
        } else if text_is(chars, from, to, "ttl") {
            Some(IPField::TTL)
        } else if text_is(chars, from, to, "protocol") {
            Some(IPField::Protocol)
        } else if text_is(chars, from, to, "chksum") {
            Some(IPField::Checksum)
        } else if text_is(chars, from, to, "src") {
            Some(IPField::SourceAddress)
        } else if text_is(chars, from, to, "dst") {
            Some(IPField::DestAddress)
        } else if text_is(chars, from, to, "load") {
            Some(IPField::Payload)
        } else {
            None
        }
    }

    /// Reads a field name. A text that names no field is handed back in the
    /// error.
    pub fn from_str(s: &str) -> (field: Result<IPField, Error>)
        ensures
            match field {
                Ok(f) => IPField::named(s@) == Some(f),
                Err(e) => IPField::named(s@) is None && e@ == Fault::Parse(s@),
            },
    {
        let chars = chars_of(s);
        assert(chars@.subrange(0, chars@.len() as int) == chars@);
        match IPField::lookup(chars.as_slice(), 0, chars.len()) {
            Some(f) => Ok(f),
            None => Err(Error::Parse(String::from_str(s))),
        }
    }
}

impl std::str::FromStr for IPField {
    type Err = Error;

    /// Reads a field name, as [`IPField::from_str`] does.
    fn from_str(s: &str) -> (field: Result<IPField, Error>)
        ensures
            match field {
                Ok(f) => IPField::named(s@) == Some(f),
                Err(e) => IPField::named(s@) is None && e@ == Fault::Parse(s@),
            },
    {
        IPField::from_str(s)
    }
}

/// A trigger that watches one field of the IPv4 header.
#[derive(Debug)]
pub struct IPTrigger {
    field: IPField,
    value: String,
    gas: usize,
    fired: usize,
    _ip_field: u8,
}

impl View for IPTrigger {
    type V = TriggerModel;

    closed spec fn view(&self) -> TriggerModel {
        TriggerModel {
            field: Field::IP(self.field),
            value: self.value@,
            gas: self.gas as nat,
            fired: self.fired as nat,
        }
    }
}

impl IPTrigger {
    /// The trigger has fired no more often than a limited budget allows.
    #[verifier::type_invariant]
    spec fn within_budget(self) -> bool {
        self.gas > 0 ==> self.fired <= self.gas
    }

    /// Counts one firing against a limited budget that is not used up.
    fn record_fire(&mut self)
        requires
            !old(self)@.spent(),
        ensures
            final(self)@ == if old(self)@.gas > 0 {
                TriggerModel { fired: old(self)@.fired + 1, ..old(self)@ }
            } else {
                old(self)@
            },
    {
        if self.gas > 0 {
            self.fired = self.fired + 1;
        }
    }
}

impl Trigger for IPTrigger {
    fn protocol(&self) -> (name: String) {
        String::from_str("IP")
    }

    fn field(&self) -> (name: String) {
        self.field.to_string()
    }

    fn gas(&self) -> (gas: usize) {
        self.gas
    }

    fn matches(&mut self, pkt: &Packet) -> (hit: bool) {
        proof {
            use_type_invariant(&*self);
        }
        if self.gas > 0 && self.fired >= self.gas {
            return false;
        }
        let hit = matches_field(Field::IP(self.field), self.value.as_str(), pkt.as_slice());
        if hit {
            self.record_fire();
        }
        hit
    }
}

impl Clone for IPTrigger {
    fn clone(&self) -> (c: IPTrigger)
        ensures
            c@ == self@,
    {
        proof {
            use_type_invariant(self);
        }
        IPTrigger {
            field: self.field,
            value: self.value.clone(),
            gas: self.gas,
            fired: self.fired, _ip_field: self._ip_field,
        }
    }
}

impl IPTrigger {
    /// A trigger on `field` that has not fired yet. With `gas` above zero it
    /// fires at most that many times; with zero, without limit. The last
    /// argument is kept and has no effect.
    pub fn new(field: IPField, value: String, gas: usize, _ip_field: u8) -> (t: IPTrigger)
        ensures
            t@ == (TriggerModel {
                field: Field::IP(field),
                value: value@,
                gas: gas as nat,
                fired: 0,
            }),
    {
        IPTrigger { field, value, gas, fired: 0, _ip_field }
    }

    /// The value that the field is compared with, as written.
    pub fn value(&self) -> (value: &str)
        ensures
            value@ == self@.value,
    {
        self.value.as_str()
    }

    /// The trigger in the form in which a strategy writes it.
    pub fn to_string(&self) -> (text: String)
        ensures
            text@ == self@.text(),
    {
        let mut text = String::new();
        text.push('[');
        text.append("IP");
        text.push(':');
        text.append(self.field.as_str());
        text.push(':');
        text.append(self.value.as_str());
        if self.gas > 0 {
            text.push(':');
            push_decimal(&mut text, self.gas as u64);
        }
        text.push(']');
        text
    }
}

} // verus!
