//! Triggers on the TCP header.

use crate::errors::{Error, Fault};
use crate::packet::Packet;
use crate::wire::codec::matches_field;
use crate::text::{all_word, chars_of, push_decimal, text_is};
use crate::triggers::{Field, Trigger, TriggerModel};
use vstd::prelude::*;
use vstd::string::StringExecFns;

verus! {

/// The fields of the TCP header, and the TCP options, that a trigger can
/// watch.
#[derive(Debug, Clone, Copy, PartialEq, Eq, Structural)]
pub enum TCPField {
    SourcePort,
    DestPort,
    Sequence,
    Ack,
    DataOffset,
    Reserved,
    Flags,
    Window,
    Checksum,
    UrgentPointer,
    Payload,
    OptionEOL,
    OptionNOP,
    OptionMSS,
    OptionWScale,
    OptionSackOk,
    OptionSack,
    OptionTimestamp,
    OptionAltChecksum,
    OptionAltChecksumOpt,
    OptionMD5Header,
    OptionUTO,
}

impl TCPField {
    /// The name under which the field is written in a strategy.
    pub open spec fn name(self) -> Seq<char> {
        match self {
            TCPField::SourcePort => "sport"@,
            TCPField::DestPort => "dport"@,
            TCPField::Sequence => "seq"@,
            TCPField::Ack => "ack"@,
            TCPField::DataOffset => "dataofs"@,
            TCPField::Reserved => "reserved"@,
            TCPField::Flags => "flags"@,
            TCPField::Window => "window"@,
            TCPField::Checksum => "chksum"@,
            TCPField::UrgentPointer => "urgptr"@,
            TCPField::Payload => "load"@,
            TCPField::OptionEOL => "options-eol"@,
            TCPField::OptionNOP => "options-nop"@,
            TCPField::OptionMSS => "options-mss"@,
            TCPField::OptionWScale => "options-wscale"@,
            TCPField::OptionSackOk => "options-sackok"@,
            TCPField::OptionSack => "options-sack"@,
            TCPField::OptionTimestamp => "options-timestamp"@,
            TCPField::OptionAltChecksum => "options-altchksum"@,
            TCPField::OptionAltChecksumOpt => "options-altchksumopt"@,
            TCPField::OptionMD5Header => "options-md5header"@,
            TCPField::OptionUTO => "options-uto"@,
        }
    }

    /// The field that a name stands for.
    pub open spec fn named(text: Seq<char>) -> Option<TCPField> {
        if text == "sport"@ {
            Some(TCPField::SourcePort)
        } else if text == "dport"@ {
            Some(TCPField::DestPort)
        } else if text == "seq"@ {
            Some(TCPField::Sequence)
        } else if text == "ack"@ {
            Some(TCPField::Ack)
        } else if text == "dataofs"@ {
            Some(TCPField::DataOffset)
        } else if text == "reserved"@ {
            Some(TCPField::Reserved)
        } else if text == "flags"@ {
            Some(TCPField::Flags)
        } else if text == "window"@ {
            Some(TCPField::Window)
        } else if text == "chksum"@ {
            Some(TCPField::Checksum)
        } else if text == "urgptr"@ {
            Some(TCPField::UrgentPointer)
        } else if text == "load"@ {
            Some(TCPField::Payload)
        } else if text == "options-eol"@ {
            Some(TCPField::OptionEOL)
        } else if text == "options-nop"@ {
            Some(TCPField::OptionNOP)
        } else if text == "options-mss"@ {
            Some(TCPField::OptionMSS)
        } else if text == "options-wscale"@ {
            Some(TCPField::OptionWScale)
        } else if text == "options-sackok"@ {
            Some(TCPField::OptionSackOk)
        } else if text == "options-sack"@ {
            Some(TCPField::OptionSack)
        } else if text == "options-timestamp"@ {
            Some(TCPField::OptionTimestamp)
        } else if text == "options-altchksum"@ {
            Some(TCPField::OptionAltChecksum)
        } else if text == "options-altchksumopt"@ {
            Some(TCPField::OptionAltChecksumOpt)
        } else if text == "options-md5header"@ {
            Some(TCPField::OptionMD5Header)
        } else if text == "options-uto"@ {
            Some(TCPField::OptionUTO)
        } else {
            None
        }
    }

    /// Every field is found again under its own name.
    pub proof fn lemma_named_inverts_name(self)
        ensures
            TCPField::named(self.name()) == Some(self),
    {
        reveal_strlit("sport");
        reveal_strlit("dport");
        reveal_strlit("seq");
        reveal_strlit("ack");
        reveal_strlit("dataofs");
        reveal_strlit("reserved");
        reveal_strlit("flags");
        reveal_strlit("window");
        reveal_strlit("chksum");
        reveal_strlit("urgptr");
        reveal_strlit("load");
        reveal_strlit("options-eol");
        reveal_strlit("options-nop");
        reveal_strlit("options-mss");
        reveal_strlit("options-wscale");
        reveal_strlit("options-sackok");
        reveal_strlit("options-sack");
        reveal_strlit("options-timestamp");
        reveal_strlit("options-altchksum");
        reveal_strlit("options-altchksumopt");
        reveal_strlit("options-md5header");
        reveal_strlit("options-uto");
        assert("sport"@.len() == 5);
        assert("dport"@.len() == 5);
        assert("seq"@.len() == 3);
        assert("ack"@.len() == 3);
        assert("dataofs"@.len() == 7);
        assert("reserved"@.len() == 8);
        assert("flags"@.len() == 5);
        assert("window"@.len() == 6);
        assert("chksum"@.len() == 6);
        assert("urgptr"@.len() == 6);
        assert("load"@.len() == 4);
        assert("options-eol"@.len() == 11);
        assert("options-nop"@.len() == 11);
        assert("options-mss"@.len() == 11);
        assert("options-wscale"@.len() == 14);
        assert("options-sackok"@.len() == 14);
        assert("options-sack"@.len() == 12);
        assert("options-timestamp"@.len() == 17);
        assert("options-altchksum"@.len() == 17);
        assert("options-altchksumopt"@.len() == 20);
        assert("options-md5header"@.len() == 17);
        assert("options-uto"@.len() == 11);
        assert("sport"@[0] == 's');
        assert("dport"@[0] == 'd');
        assert("seq"@[0] == 's');
        assert("ack"@[0] == 'a');
        assert("dataofs"@[0] == 'd');
        assert("reserved"@[0] == 'r');
        assert("flags"@[0] == 'f');
        assert("window"@[0] == 'w');
        assert("chksum"@[0] == 'c');
        assert("urgptr"@[0] == 'u');
        assert("load"@[0] == 'l');
        assert("options-eol"@[8] == 'e');
        assert("options-nop"@[8] == 'n');
        assert("options-mss"@[8] == 'm');
        assert("options-wscale"@[8] == 'w');
        assert("options-sackok"@[8] == 's');
        assert("options-sack"@[8] == 's');
        assert("options-timestamp"@[8] == 't');
        assert("options-altchksum"@[8] == 'a');
        assert("options-altchksumopt"@[8] == 'a');
        assert("options-md5header"@[8] == 'm');
        assert("options-uto"@[8] == 'u');
    }

    /// Field names are made of letters, digits and hyphens.
    pub proof fn lemma_name_is_word(self)
        ensures
            all_word(self.name()),
    {
        match self {
            TCPField::SourcePort => {
                reveal_strlit("sport");
            },
            TCPField::DestPort => {
                reveal_strlit("dport");
            },
            TCPField::Sequence => {
                reveal_strlit("seq");
            },
            TCPField::Ack => {
                reveal_strlit("ack");
            },
            TCPField::DataOffset => {
                reveal_strlit("dataofs");
            },
            TCPField::Reserved => {
                reveal_strlit("reserved");
            },
            TCPField::Flags => {
                reveal_strlit("flags");
            },
            TCPField::Window => {
                reveal_strlit("window");
            },
            TCPField::Checksum => {
                reveal_strlit("chksum");
            },
            TCPField::UrgentPointer => {
                reveal_strlit("urgptr");
            },
            TCPField::Payload => {
                reveal_strlit("load");
            },
            TCPField::OptionEOL => {
                reveal_strlit("options-eol");
            },
            TCPField::OptionNOP => {
                reveal_strlit("options-nop");
            },
            TCPField::OptionMSS => {
                reveal_strlit("options-mss");
            },
            TCPField::OptionWScale => {
                reveal_strlit("options-wscale");
            },
            TCPField::OptionSackOk => {
                reveal_strlit("options-sackok");
            },
            TCPField::OptionSack => {
                reveal_strlit("options-sack");
            },
            TCPField::OptionTimestamp => {
                reveal_strlit("options-timestamp");
            },
            TCPField::OptionAltChecksum => {
                reveal_strlit("options-altchksum");
            },
            TCPField::OptionAltChecksumOpt => {
                reveal_strlit("options-altchksumopt");
            },
            TCPField::OptionMD5Header => {
                reveal_strlit("options-md5header");
            },
            TCPField::OptionUTO => {
                reveal_strlit("options-uto");
            },
        }
    }

    /// The name under which the field is written in a strategy.
    pub fn as_str(&self) -> (name: &'static str)
        ensures
            name@ == self.name(),
    {
        match self {
            TCPField::SourcePort => "sport",
            TCPField::DestPort => "dport",
            TCPField::Sequence => "seq",
            TCPField::Ack => "ack",
            TCPField::DataOffset => "dataofs",
            TCPField::Reserved => "reserved",
            TCPField::Flags => "flags",
            TCPField::Window => "window",
            TCPField::Checksum => "chksum",
            TCPField::UrgentPointer => "urgptr",
            TCPField::Payload => "load",
            TCPField::OptionEOL => "options-eol",
            TCPField::OptionNOP => "options-nop",
            TCPField::OptionMSS => "options-mss",
            TCPField::OptionWScale => "options-wscale",
            TCPField::OptionSackOk => "options-sackok",
            TCPField::OptionSack => "options-sack",
            TCPField::OptionTimestamp => "options-timestamp",
            TCPField::OptionAltChecksum => "options-altchksum",
            TCPField::OptionAltChecksumOpt => "options-altchksumopt",
            TCPField::OptionMD5Header => "options-md5header",
            TCPField::OptionUTO => "options-uto",
        }
    }

    /// The field's name as an owned string.
    pub fn to_string(&self) -> (name: String)
        ensures
            name@ == self.name(),
    {
        String::from_str(self.as_str())
    }

    /// Looks up the field named by the text between two positions of a buffer.
    pub(crate) fn lookup(chars: &[char], from: usize, to: usize) -> (field: Option<TCPField>)
        requires
            from <= to <= chars.len(),
        ensures
            field == TCPField::named(chars@.subrange(from as int, to as int)),
    {
        if text_is(chars, from, to, "sport") {
            Some(TCPField::SourcePort)
        } else if text_is(chars, from, to, "dport") {
            Some(TCPField::DestPort)
        } else if text_is(chars, from, to, "seq") {
            Some(TCPField::Sequence)
        } else if text_is(chars, from, to, "ack") {
            Some(TCPField::Ack)
        } else if text_is(chars, from, to, "dataofs") {
            Some(TCPField::DataOffset)
        } else if text_is(chars, from, to, "reserved") {
            Some(TCPField::Reserved)
        } else if text_is(chars, from, to, "flags") {
            Some(TCPField::Flags)
        } else if text_is(chars, from, to, "window") {
            Some(TCPField::Window)
        } else if text_is(chars, from, to, "chksum") {
            Some(TCPField::Checksum)
        } else if text_is(chars, from, to, "urgptr") {
            Some(TCPField::UrgentPointer)
        } else if text_is(chars, from, to, "load") {
            Some(TCPField::Payload)
        } else if text_is(chars, from, to, "options-eol") {
            Some(TCPField::OptionEOL)
        } else if text_is(chars, from, to, "options-nop") {
            Some(TCPField::OptionNOP)
        } else if text_is(chars, from, to, "options-mss") {
            Some(TCPField::OptionMSS)
        } else if text_is(chars, from, to, "options-wscale") {
            Some(TCPField::OptionWScale)
        } else if text_is(chars, from, to, "options-sackok") {
            Some(TCPField::OptionSackOk)
        } else if text_is(chars, from, to, "options-sack") {
            Some(TCPField::OptionSack)
        } else if text_is(chars, from, to, "options-timestamp") {
            Some(TCPField::OptionTimestamp)
        } else if text_is(chars, from, to, "options-altchksum") {
            Some(TCPField::OptionAltChecksum)
        } else if text_is(chars, from, to, "options-altchksumopt") {
            Some(TCPField::OptionAltChecksumOpt)
        } else if text_is(chars, from, to, "options-md5header") {
            Some(TCPField::OptionMD5Header)
        } else if text_is(chars, from, to, "options-uto") {
            Some(TCPField::OptionUTO)
        } else {
            None
        }
    }

    /// Reads a field name. A text that names no field is handed back in the
    /// error.
    pub fn from_str(s: &str) -> (field: Result<TCPField, Error>)
        ensures
            match field {
                Ok(f) => TCPField::named(s@) == Some(f),
                Err(e) => TCPField::named(s@) is None && e@ == Fault::Parse(s@),
            },
    {
        let chars = chars_of(s);
        assert(chars@.subrange(0, chars@.len() as int) == chars@);
        match TCPField::lookup(chars.as_slice(), 0, chars.len()) {
            Some(f) => Ok(f),
            None => Err(Error::Parse(String::from_str(s))),
        }
    }
}

impl std::str::FromStr for TCPField {
    type Err = Error;

    /// Reads a field name, as [`TCPField::from_str`] does.
    fn from_str(s: &str) -> (field: Result<TCPField, Error>)
        ensures
            match field {
                Ok(f) => TCPField::named(s@) == Some(f),
                Err(e) => TCPField::named(s@) is None && e@ == Fault::Parse(s@),
            },
    {
        TCPField::from_str(s)
    }
}

/// A trigger that watches one field of the TCP header.
#[derive(Debug)]
pub struct TCPTrigger {
    field: TCPField,
    value: String,
    gas: usize,
    fired: usize,
}

impl View for TCPTrigger {
    type V = TriggerModel;

    closed spec fn view(&self) -> TriggerModel {
        TriggerModel {
            field: Field::TCP(self.field),
            value: self.value@,
            gas: self.gas as nat,
            fired: self.fired as nat,
        }
    }
}

impl TCPTrigger {
    /// The trigger has fired no more often than a limited budget allows.
    #[verifier::type_invariant]
    spec fn within_budget(self) -> bool {
        self.gas > 0 ==> self.fired <= self.gas
    }

    /// Counts one firing against a limited budget that is not used up.
    fn record_fire(&mut self)
        requires
            !old(self)@.spent(),
        ensures
            final(self)@ == if old(self)@.gas > 0 {
                TriggerModel { fired: old(self)@.fired + 1, ..old(self)@ }
            } else {
                old(self)@
            },
    {
        if self.gas > 0 {
            self.fired = self.fired + 1;
        }
    }
}

impl Trigger for TCPTrigger {
    fn protocol(&self) -> (name: String) {
        String::from_str("TCP")
    }

    fn field(&self) -> (name: String) {
        self.field.to_string()
    }

    fn gas(&self) -> (gas: usize) {
        self.gas
    }

    fn matches(&mut self, pkt: &Packet) -> (hit: bool) {
        proof {
            use_type_invariant(&*self);
        }
        if self.gas > 0 && self.fired >= self.gas {
            return false;
        }
        let hit = matches_field(Field::TCP(self.field), self.value.as_str(), pkt.as_slice());
        if hit {
            self.record_fire();
        }
        hit
    }
}

impl Clone for TCPTrigger {
    fn clone(&self) -> (c: TCPTrigger)
        ensures
            c@ == self@,
    {
        proof {
            use_type_invariant(self);
        }
        TCPTrigger {
            field: self.field,
            value: self.value.clone(),
            gas: self.gas,
            fired: self.fired,
        }
    }
}

impl TCPTrigger {
    /// A trigger on `field` that has not fired yet. With `gas` above zero it
    /// fires at most that many times; with zero, without limit.
    pub fn new(field: TCPField, value: String, gas: usize) -> (t: Result<TCPTrigger, Error>)
        ensures
            t matches Ok(trigger) && trigger@ == (TriggerModel {
                field: Field::TCP(field),
                value: value@,
                gas: gas as nat,
                fired: 0,
            }),
    {
        Ok(TCPTrigger { field, value, gas, fired: 0 })
    }

    /// The value that the field is compared with, as written.
    pub fn value(&self) -> (value: &str)
        ensures
            value@ == self@.value,
    {
        self.value.as_str()
    }

    /// The trigger in the form in which a strategy writes it.
    pub fn to_string(&self) -> (text: String)
        ensures
            text@ == self@.text(),
    {
        let mut text = String::new();
        text.push('[');
        text.append("TCP");
        text.push(':');
        text.append(self.field.as_str());
        text.push(':');
        text.append(self.value.as_str());
        if self.gas > 0 {
            text.push(':');
            push_decimal(&mut text, self.gas as u64);
        }
        text.push(']');
        text
    }
}

} // verus!
