//! How the value of a field is written as text, and when a packet's field
//! has the value that a text writes.
//!
//! Most fields are numbers and written in decimal. The TCP flags are written
//! as a set of letters, one for each flag that is set. Addresses are written
//! as four decimal numbers with dots between them. A payload, and the data of
//! a TCP option that is no number, is a stretch of bytes and written as the
//! bytes themselves.

use crate::text::{
    all_digits, chars_of, decimal, digits_len, lemma_digits_stop, number, push_decimal,
    read_number, skip_digits, stands,
};
use crate::triggers::{Field, IPField, TCPField};
use crate::wire::bytes::{find, holds};
use crate::wire::{locate, place_of, read_slot, slot_value, Found, Place};
use vstd::prelude::*;
use vstd::utf8::encode_utf8;

verus! {

/// The ways in which a number is written as text.
#[derive(Debug, Clone, Copy, PartialEq, Eq, Structural)]
pub enum Coding {
    Decimal,
    Flags,
    Address,
}

/// The way in which the value of a field is written, where it is a number.
pub open spec fn coding_of(field: Field) -> Coding {
    match field {
        Field::IP(IPField::SourceAddress) => Coding::Address,
        Field::IP(IPField::DestAddress) => Coding::Address,
        Field::TCP(TCPField::Flags) => Coding::Flags,
        _ => Coding::Decimal,
    }
}

/// The way in which the value of a field is written, where it is a number.
pub fn coding(field: Field) -> (c: Coding)
    ensures
        c == coding_of(field),
{
    match field {
        Field::IP(IPField::SourceAddress) => Coding::Address,
        Field::IP(IPField::DestAddress) => Coding::Address,
        Field::TCP(TCPField::Flags) => Coding::Flags,
        _ => Coding::Decimal,
    }
}

/// The number that a decimal text writes; none for a text that is empty or
/// holds anything but digits.
pub open spec fn decimal_value(text: Seq<char>) -> Option<nat> {
    if text.len() > 0 && all_digits(text) {
        Some(number(text))
    } else {
        None
    }
}

/// The weight of the TCP flag that a letter stands for: `F`, `S`, `R`, `P`,
/// `A`, `U`, `E`, `C`, `N` for FIN, SYN, RST, PSH, ACK, URG, ECE, CWR and NS.
/// Zero for any other character.
pub open spec fn flag_weight(c: char) -> nat {
    if c == 'F' {
        1
    } else if c == 'S' {
        2
    } else if c == 'R' {
        4
    } else if c == 'P' {
        8
    } else if c == 'A' {
        16
    } else if c == 'U' {
        32
    } else if c == 'E' {
        64
    } else if c == 'C' {
        128
    } else if c == 'N' {
        256
    } else {
        0
    }
}

/// The weight of a flag letter where the text holds it, else zero.
pub open spec fn held(text: Seq<char>, c: char) -> nat {
    if text.contains(c) {
        flag_weight(c)
    } else {
        0
    }
}

/// The flags field that a text of flag letters writes: the flags whose
/// letters the text holds, in whatever order and however often. None for a
/// text that holds anything but flag letters.
pub open spec fn flags_value(text: Seq<char>) -> Option<nat> {
    if forall|i: int| 0 <= i < text.len() ==> flag_weight(#[trigger] text[i]) > 0 {
        Some(
            held(text, 'F') + held(text, 'S') + held(text, 'R') + held(text, 'P') + held(
                text,
                'A',
            ) + held(text, 'U') + held(text, 'E') + held(text, 'C') + held(text, 'N'),
        )
    } else {
        None
    }
}

/// The dotted form of a 32-bit address.
pub open spec fn dotted(address: nat) -> Seq<char> {
    decimal(address / 0x100_0000 % 256) + seq!['.'] + decimal(address / 0x1_0000 % 256)
        + seq!['.'] + decimal(address / 0x100 % 256) + seq!['.'] + decimal(address % 256)
}

/// The address that a dotted text writes: four decimal numbers up to 255
/// with dots between them. None for any other text.
pub open spec fn address_value(text: Seq<char>) -> Option<nat> {
    let a1 = digits_len(text, 0) as int;
    let b0 = a1 + 1;
    let b1 = b0 + digits_len(text, b0);
    let c0 = b1 + 1;
    let c1 = c0 + digits_len(text, c0);
    let d0 = c1 + 1;
    let d1 = d0 + digits_len(text, d0);
    let a = number(text.subrange(0, a1));
    let b = number(text.subrange(b0, b1));
    let c = number(text.subrange(c0, c1));
    let d = number(text.subrange(d0, d1));
    if a1 > 0 && stands(text, a1, '.') && b1 > b0 && stands(text, b1, '.') && c1 > c0 && stands(
        text,
        c1,
        '.',
    ) && d1 > d0 && d1 == text.len() && a <= 255 && b <= 255 && c <= 255 && d <= 255 {
        Some(((a * 256 + b) * 256 + c) * 256 + d)
    } else {
        None
    }
}

/// The number that a text writes in a coding.
pub open spec fn decoded(coding: Coding, text: Seq<char>) -> Option<nat> {
    match coding {
        Coding::Decimal => decimal_value(text),
        Coding::Flags => flags_value(text),
        Coding::Address => address_value(text),
    }
}

/// A number is what a trigger's text asks for: the number that the text
/// writes in decimal; the flags that the text names, no more and no less;
/// the address whose dotted form the text is, to the letter.
pub open spec fn number_matches(coding: Coding, text: Seq<char>, n: nat) -> bool {
    match coding {
        Coding::Decimal => decimal_value(text) == Some(n),
        Coding::Flags => flags_value(text) == Some(n),
        Coding::Address => text == dotted(n),
    }
}

/// The field of the packet has the value that the text writes. A stretch of
/// bytes has it when the bytes of the text stand somewhere in it. A packet
/// that lacks the field has no value.
pub open spec fn field_matches(field: Field, value: Seq<char>, pkt: Seq<u8>) -> bool {
    match place_of(field, pkt) {
        None => false,
        Some(Place::Number(slot)) => number_matches(
            coding_of(field),
            value,
            slot_value(pkt, slot),
        ),
        Some(Place::Bytes { from, to }) => holds(pkt.subrange(from, to), encode_utf8(value)),
    }
}

/// Reads a decimal text as a number, unless the number exceeds `limit`.
pub fn read_decimal(chars: &[char], limit: u64) -> (value: Option<u64>)
    ensures
        value == match decimal_value(chars@) {
            Some(n) => if n <= limit {
                Some(n as u64)
            } else {
                None
            },
            None => None,
        },
{
    let end = skip_digits(chars, 0);
    proof {
        lemma_digits_stop(chars@, 0);
        if end == chars.len() {
            assert(chars@.subrange(0, end as int) == chars@);
        }
    }
    if end == 0 || end != chars.len() {
        return None;
    }
    read_number(chars, 0, end, limit)
}

/// Tests whether a text holds a character.
fn has_char(chars: &[char], c: char) -> (found: bool)
    ensures
        found == chars@.contains(c),
{
    let mut i: usize = 0;
    while i < chars.len()
        invariant
            i <= chars.len(),
            forall|j: int| 0 <= j < i ==> chars@[j] != c,
        decreases chars.len() - i,
    {
        if chars[i] == c {
            return true;
        }
        i += 1;
    }
    false
}

/// The weight of the TCP flag that a letter stands for.
fn weight(c: char) -> (w: u64)
    ensures
        w == flag_weight(c),
{
    if c == 'F' {
        1
    } else if c == 'S' {
        2
    } else if c == 'R' {
        4
    } else if c == 'P' {
        8
    } else if c == 'A' {
        16
    } else if c == 'U' {
        32
    } else if c == 'E' {
        64
    } else if c == 'C' {
        128
    } else if c == 'N' {
        256
    } else {
        0
    }
}

/// The weight of a flag letter where the text holds it, else zero.
fn held_in(chars: &[char], c: char) -> (w: u64)
    ensures
        w == held(chars@, c),
        w <= 256,
{
    if has_char(chars, c) {
        weight(c)
    } else {
        0
    }
}

/// Reads a text of flag letters as a flags field.
pub fn read_flags(chars: &[char]) -> (value: Option<u64>)
    ensures
        value == match flags_value(chars@) {
            Some(n) => Some(n as u64),
            None => None,
        },
        value matches Some(n) ==> n < 512,
{
    let mut i: usize = 0;
    while i < chars.len()
        invariant
            i <= chars.len(),
            forall|j: int| 0 <= j < i ==> flag_weight(#[trigger] chars@[j]) > 0,
        decreases chars.len() - i,
    {
        if weight(chars[i]) == 0 {
            return None;
        }
        i += 1;
    }
    Some(
        held_in(chars, 'F') + held_in(chars, 'S') + held_in(chars, 'R') + held_in(chars, 'P')
            + held_in(chars, 'A') + held_in(chars, 'U') + held_in(chars, 'E') + held_in(chars, 'C')
            + held_in(chars, 'N'),
    )
}

/// Writes a 32-bit address in dotted form.
pub(crate) fn write_dotted(address: u64) -> (text: String)
    requires
        address <= 0xffff_ffff,
    ensures
        text@ == dotted(address as nat),
{
    let mut text = String::new();
    push_decimal(&mut text, address / 0x100_0000 % 256);
    text.push('.');
    push_decimal(&mut text, address / 0x1_0000 % 256);
    text.push('.');
    push_decimal(&mut text, address / 0x100 % 256);
    text.push('.');
    push_decimal(&mut text, address % 256);
    text
}

/// Reads a dotted text as a 32-bit address.
pub fn read_dotted(chars: &[char]) -> (value: Option<u64>)
    ensures
        value == match address_value(chars@) {
            Some(n) => Some(n as u64),
            None => None,
        },
        value matches Some(n) ==> n <= 0xffff_ffff,
{
    let len = chars.len();
    let a1 = skip_digits(chars, 0);
    if !(a1 > 0 && a1 < len && chars[a1] == '.') {
        return None;
    }
    let b0 = a1 + 1;
    let b1 = skip_digits(chars, b0);
    if !(b1 > b0 && b1 < len && chars[b1] == '.') {
        return None;
    }
    let c0 = b1 + 1;
    let c1 = skip_digits(chars, c0);
    if !(c1 > c0 && c1 < len && chars[c1] == '.') {
        return None;
    }
    let d0 = c1 + 1;
    let d1 = skip_digits(chars, d0);
    if !(d1 > d0 && d1 == len) {
        return None;
    }
    let a = match read_number(chars, 0, a1, 255) {
        Some(n) => n,
        None => {
            return None;
        },
    };
    let b = match read_number(chars, b0, b1, 255) {
        Some(n) => n,
        None => {
            return None;
        },
    };
    let c = match read_number(chars, c0, c1, 255) {
        Some(n) => n,
        None => {
            return None;
        },
    };
    let d = match read_number(chars, d0, d1, 255) {
        Some(n) => n,
        None => {
            return None;
        },
    };
    Some(((a * 256 + b) * 256 + c) * 256 + d)
}

/// Reads the number that a text writes in a coding, unless it exceeds
/// `limit`.
pub fn decode(coding: Coding, chars: &[char], limit: u64) -> (value: Option<u64>)
    ensures
        value == match decoded(coding, chars@) {
            Some(n) => if n <= limit {
                Some(n as u64)
            } else {
                None
            },
            None => None,
        },
{
    match coding {
        Coding::Decimal => read_decimal(chars, limit),
        Coding::Flags => match read_flags(chars) {
            Some(n) => if n <= limit {
                Some(n)
            } else {
                None
            },
            None => None,
        },
        Coding::Address => match read_dotted(chars) {
            Some(n) => if n <= limit {
                Some(n)
            } else {
                None
            },
            None => None,
        },
    }
}

/// Tests whether the field of a packet has the value that a text writes.
pub fn matches_field(field: Field, value: &str, pkt: &[u8]) -> (hit: bool)
    ensures
        hit == field_matches(field, value@, pkt@),
{
    match locate(field, pkt) {
        None => false,
        Some(Found::Bytes(from, to)) => find(pkt, from, to, value.as_bytes()),
        Some(Found::Number(spot)) => {
            let n = read_slot(pkt, spot);
            match coding(field) {
                Coding::Address => {
                    let written = write_dotted(n);
                    let wanted = chars_of(value);
                    let got = chars_of(written.as_str());
                    same_chars(wanted.as_slice(), got.as_slice())
                },
                c => {
                    let chars = chars_of(value);
                    match decode(c, chars.as_slice(), 0xffff_ffff) {
                        Some(m) => m == n,
                        None => false,
                    }
                },
            }
        },
    }
}

/// Tests whether two texts are the same.
fn same_chars(a: &[char], b: &[char]) -> (same: bool)
    ensures
        same == (a@ == b@),
{
    if a.len() != b.len() {
        return false;
    }
    let mut i: usize = 0;
    while i < a.len()
        invariant
            i <= a.len(),
            a.len() == b.len(),
            forall|j: int| 0 <= j < i ==> a@[j] == b@[j],
        decreases a.len() - i,
    {
        if a[i] != b[i] {
            return false;
        }
        i += 1;
    }
    assert(a@ =~= b@);
    true
}

} // verus!
