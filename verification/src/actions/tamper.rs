//! The `tamper` action.

use crate::actions::{ran, tamper_head_text, ActionModel, GenevaAction};
use crate::packet::Packet;
use crate::errors::{Error, Fault};
use crate::text::chars_of;
use crate::triggers::{Field, IPField, TCPField};
use crate::wire::bytes::{splice, spliced};
use crate::wire::checksum::{seal, sealed};
use crate::wire::codec::{coding, coding_of, decode, decoded, Coding};
use crate::wire::noise::{draw, noise, noise_bytes, noise_of};
use crate::wire::{
    locate, place_of, read_slot, refit, refitted, slot_value, with_slot, write_slot, Found,
    Place,
};
use vstd::prelude::*;
use vstd::string::StringExecFns;
use vstd::utf8::encode_utf8;

verus! {

/// The ways in which `tamper` changes a field.
#[derive(Debug, Clone, Copy, PartialEq, Eq, Structural)]
pub enum TamperMode {
    /// Sets the field to a given value.
    Replace,
    /// Sets the field to a value that the caller does not choose.
    Corrupt,
    /// Adds a given value to the field.
    Add,
}

impl View for TamperMode {
    type V = TamperMode;

    open spec fn view(&self) -> TamperMode {
        *self
    }
}

impl TamperMode {
    /// The name under which the mode is written in a strategy.
    pub open spec fn name(self) -> Seq<char> {
        match self {
            TamperMode::Replace => "replace"@,
            TamperMode::Corrupt => "corrupt"@,
            TamperMode::Add => "add"@,
        }
    }

    /// The name under which the mode is written in a strategy.
    pub fn as_str(&self) -> (name: &'static str)
        ensures
            name@ == self.name(),
    {
        match self {
            TamperMode::Replace => "replace",
            TamperMode::Corrupt => "corrupt",
            TamperMode::Add => "add",
        }
    }

    /// The mode's name as an owned string.
    pub fn to_string(&self) -> (name: String)
        ensures
            name@ == self.name(),
    {
        String::from_str(self.as_str())
    }
}

/// The field is the payload of its layer.
pub open spec fn is_payload(field: Field) -> bool {
    match field {
        Field::IP(IPField::Payload) => true,
        Field::TCP(TCPField::Payload) => true,
        _ => false,
    }
}

/// The field is the checksum of its layer.
pub open spec fn is_checksum(field: Field) -> bool {
    match field {
        Field::IP(IPField::Checksum) => true,
        Field::TCP(TCPField::Checksum) => true,
        _ => false,
    }
}

/// The number that `tamper` puts into a field that is a number below `span`
/// and holds `old`: the number that the value writes, which must be below
/// `span`; or a number drawn from `noise`; or the sum of `old` and the number
/// that the value writes, which must fit in 32 bits, wrapped around at
/// `span`. None where the value does not write such a number.
pub open spec fn new_number(
    coding: Coding,
    mode: TamperMode,
    value: Seq<char>,
    old: nat,
    span: nat,
    noise: nat,
) -> Option<nat> {
    match mode {
        TamperMode::Replace => match decoded(coding, value) {
            Some(n) => if n < span {
                Some(n)
            } else {
                None
            },
            None => None,
        },
        TamperMode::Corrupt => Some(noise % span),
        TamperMode::Add => match decoded(coding, value) {
            Some(n) => if n <= 0xffff_ffff {
                Some((old + n) % span)
            } else {
                None
            },
            None => None,
        },
    }
}

/// The bytes that `tamper` puts in the place of `n` bytes: the bytes of the
/// value, which must be as many as before unless the stretch may change its
/// length; or bytes drawn from `noise`, as many as before. Nothing can be
/// added to bytes.
pub open spec fn new_bytes(
    mode: TamperMode,
    value: Seq<char>,
    n: nat,
    resizable: bool,
    noise: nat,
) -> Option<Seq<u8>> {
    match mode {
        TamperMode::Replace => if resizable || encode_utf8(value).len() == n {
            Some(encode_utf8(value))
        } else {
            None
        },
        TamperMode::Corrupt => Some(noise_bytes(noise, n)),
        TamperMode::Add => None,
    }
}

/// What `tamper` makes of a packet.
///
/// The two names must name a field, and the packet must have it. A number
/// is replaced as [`new_number`] says, a stretch of bytes as [`new_bytes`]
/// says; only a payload may change its length, and the total length in the
/// IPv4 header follows it. Then both checksums are set right, unless the
/// field is itself a checksum.
#[verifier::opaque]
pub open spec fn tampered(
    protocol: Seq<char>,
    field: Seq<char>,
    mode: TamperMode,
    value: Seq<char>,
    pkt: Seq<u8>,
) -> Result<Seq<u8>, Fault> {
    match Field::named(protocol, field) {
        Err(token) => Err(Fault::Parse(token)),
        Ok(f) => match place_of(f, pkt) {
            None => Err(Fault::Malformed),
            Some(Place::Number(slot)) => match new_number(
                coding_of(f),
                mode,
                value,
                slot_value(pkt, slot),
                slot.span as nat,
                noise_of(pkt),
            ) {
                None => Err(Fault::Parse(value)),
                Some(n) => if is_checksum(f) {
                    Ok(with_slot(pkt, slot, n))
                } else {
                    Ok(sealed(with_slot(pkt, slot, n)))
                },
            },
            Some(Place::Bytes { from, to }) => match new_bytes(
                mode,
                value,
                (to - from) as nat,
                is_payload(f),
                noise_of(pkt),
            ) {
                None => Err(Fault::Parse(value)),
                Some(bytes) => if is_payload(f) && mode == TamperMode::Replace {
                    match refitted(spliced(pkt, from, to, bytes)) {
                        Some(fitted) => Ok(sealed(fitted)),
                        None => Err(Fault::Malformed),
                    }
                } else {
                    Ok(sealed(spliced(pkt, from, to, bytes)))
                },
            },
        },
    }
}

/// Tests whether a field is the payload of its layer.
fn payload_field(field: Field) -> (yes: bool)
    ensures
        yes == is_payload(field),
{
    match field {
        Field::IP(IPField::Payload) => true,
        Field::TCP(TCPField::Payload) => true,
        _ => false,
    }
}

/// Tests whether a field is the checksum of its layer.
fn checksum_field(field: Field) -> (yes: bool)
    ensures
        yes == is_checksum(field),
{
    match field {
        Field::IP(IPField::Checksum) => true,
        Field::TCP(TCPField::Checksum) => true,
        _ => false,
    }
}

/// Works out the number that `tamper` puts into a field.
fn pick_number(coding: Coding, mode: TamperMode, value: &[char], old: u64, span: u64, noise: u64)
    -> (picked: Option<u64>)
    requires
        old < span,
        1 <= span <= 0x1_0000_0000,
    ensures
        picked == match new_number(
            coding,
            mode,
            value@,
            old as nat,
            span as nat,
            noise as nat,
        ) {
            Some(n) => Some(n as u64),
            None => None,
        },
        picked matches Some(n) ==> n < span,
{
    match mode {
        TamperMode::Replace => decode(coding, value, span - 1),
        TamperMode::Corrupt => Some(noise % span),
        TamperMode::Add => match decode(coding, value, 0xffff_ffff) {
            Some(n) => Some((old + n) % span),
            None => None,
        },
    }
}

/// Changes one field of a packet as `tamper` does.
pub fn tamper(protocol: &str, field: &str, mode: TamperMode, value: &str, pkt: &[u8]) -> (out:
    Result<Vec<u8>, Error>)
    ensures
        match out {
            Ok(changed) => tampered(protocol@, field@, mode, value@, pkt@) == Ok::<_, Fault>(
                changed@,
            ),
            Err(e) => tampered(protocol@, field@, mode, value@, pkt@) == Err::<Seq<u8>, _>(e@),
        },
{
    reveal(tampered);
    let layer_chars = chars_of(protocol);
    let field_chars = chars_of(field);
    let f = match Field::lookup(layer_chars.as_slice(), field_chars.as_slice()) {
        Ok(f) => f,
        Err(token) => {
            return Err(Error::Parse(token));
        },
    };
    let found = match locate(f, pkt) {
        Some(found) => found,
        None => {
            return Err(Error::Malformed);
        },
    };
    let seed = noise(pkt);
    match found {
        Found::Number(spot) => {
            let chars = chars_of(value);
            let old = read_slot(pkt, spot);
            match pick_number(coding(f), mode, chars.as_slice(), old, spot.span, seed) {
                None => Err(Error::Parse(String::from_str(value))),
                Some(n) => {
                    let changed = write_slot(pkt, spot, n);
                    if checksum_field(f) {
                        Ok(changed)
                    } else {
                        Ok(seal(changed))
                    }
                },
            }
        },
        Found::Bytes(from, to) => {
            let resizable = payload_field(f);
            let given = value.as_bytes();
            match mode {
                TamperMode::Replace => {
                    if !resizable && given.len() != to - from {
                        return Err(Error::Parse(String::from_str(value)));
                    }
                    let changed = splice(pkt, from, to, given);
                    if resizable {
                        match refit(changed) {
                            Some(fitted) => Ok(seal(fitted)),
                            None => Err(Error::Malformed),
                        }
                    } else {
                        Ok(seal(changed))
                    }
                },
                TamperMode::Corrupt => {
                    let drawn = draw(seed, to - from);
                    Ok(seal(splice(pkt, from, to, drawn.as_slice())))
                },
                TamperMode::Add => Err(Error::Parse(String::from_str(value))),
            }
        },
    }
}

/// Writes the parameters of `tamper`, closed by a brace.
fn head_text(protocol: &String, field: &String, mode: TamperMode, new_value: &String) -> (text:
    String)
    ensures
        text@ == tamper_head_text(protocol@, field@, mode, new_value@),
{
    let mut text = String::new();
    text.append(protocol.as_str());
    text.push(':');
    text.append(field.as_str());
    text.push(':');
    text.append(mode.as_str());
    let with_value = match mode {
        TamperMode::Replace => true,
        _ => !new_value.as_str().is_empty(),
    };
    if with_value {
        text.push(':');
        text.append(new_value.as_str());
    }
    text.push('}');
    text
}

/// Changes one header field of the packet and hands the packet to a subtree.
#[derive(Debug)]
pub struct TamperAction {
    pub protocol: String,
    pub field: String,
    pub new_value: String,
    pub mode: TamperMode,
    pub action: Box<GenevaAction>,
}

impl View for TamperAction {
    type V = ActionModel;

    open spec fn view(&self) -> ActionModel {
        ActionModel::Tamper {
            protocol: self.protocol@,
            field: self.field@,
            new_value: self.new_value@,
            mode: self.mode,
            action: Box::new(self.action@),
        }
    }
}

impl Clone for TamperAction {
    fn clone(&self) -> (c: TamperAction)
        ensures
            c@ == self@,
    {
        TamperAction {
            protocol: self.protocol.clone(),
            field: self.field.clone(),
            new_value: self.new_value.clone(),
            mode: self.mode,
            action: Box::new(self.action.copy()),
        }
    }
}

impl TamperAction {
    /// A `tamper` action on the named field, followed by the given subtree.
    pub fn new(
        protocol: String,
        field: String,
        new_value: String,
        mode: TamperMode,
        action: GenevaAction,
    ) -> (a: Result<TamperAction, Error>)
        ensures
            a matches Ok(tamper) && tamper@ == (ActionModel::Tamper {
                protocol: protocol@,
                field: field@,
                new_value: new_value@,
                mode,
                action: Box::new(action@),
            }),
    {
        Ok(TamperAction { protocol, field, new_value, mode, action: Box::new(action) })
    }

    /// Changes the field in the packet and runs the subtree on the result.
    pub fn run(&self, pkt: Packet) -> (out: Result<Vec<Packet>, Error>)
        ensures
            ran(out, self@.run(pkt@)),
        decreases self,
    {
        let changed = match tamper(
            self.protocol.as_str(),
            self.field.as_str(),
            self.mode,
            self.new_value.as_str(),
            pkt.as_slice(),
        ) {
            Ok(changed) => changed,
            Err(e) => {
                return Err(e);
            },
        };
        self.action.run(Packet::new(changed))
    }

    /// The action tree as a strategy writes it.
    pub fn to_string(&self) -> (text: String)
        ensures
            text@ == self@.text(),
        decreases self,
    {
        let inner = self.action.to_string();
        let mut text = String::from_str("tamper{");
        let head = head_text(&self.protocol, &self.field, self.mode, &self.new_value);
        text.append(head.as_str());
        if !inner.as_str().is_empty() {
            text.push('(');
            text.append(inner.as_str());
            text.push(',');
            text.push(')');
        }
        assert(text@ == self@.text());
        text
    }
}

} // verus!
