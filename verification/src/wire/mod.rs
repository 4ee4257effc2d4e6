//! The layout of IPv4 and TCP headers: where each field lies in a packet.
//!
//! A packet is an IPv4 datagram from its first byte on. It has an IP layer
//! when it is long enough for the header that its first byte announces, and
//! a TCP layer when, besides, it is the first fragment of a datagram that
//! carries TCP and is long enough for the TCP header too.

use crate::triggers::{Field, IPField, TCPField};
use crate::wire::bytes::{
    be_bytes, be_value, lemma_be_bytes, lemma_be_value_bound, push_be, push_range, read_be,
    span_of, spliced,
};
use vstd::prelude::*;

pub mod bytes;
pub mod checksum;
pub mod codec;
pub mod noise;

verus! {

/// The length of the IPv4 header, as the header itself gives it.
pub open spec fn ip_header_len(pkt: Seq<u8>) -> int {
    (pkt[0] as int % 16) * 4
}

/// The packet has an IPv4 header.
pub open spec fn has_ip(pkt: Seq<u8>) -> bool {
    &&& pkt.len() >= 20
    &&& pkt[0] as int / 16 == 4
    &&& 20 <= ip_header_len(pkt) <= pkt.len()
}

/// The length of the TCP header, as the header itself gives it.
pub open spec fn tcp_header_len(pkt: Seq<u8>) -> int {
    (pkt[ip_header_len(pkt) + 12] as int / 16) * 4
}

/// The packet has an IPv4 header and, behind it, a TCP header.
pub open spec fn has_tcp(pkt: Seq<u8>) -> bool {
    &&& has_ip(pkt)
    &&& pkt[9] == 6
    &&& (pkt[6] as int % 32) * 256 + pkt[7] as int == 0
    &&& ip_header_len(pkt) + 20 <= pkt.len()
    &&& 20 <= tcp_header_len(pkt)
    &&& ip_header_len(pkt) + tcp_header_len(pkt) <= pkt.len()
}

/// Reads the length of the IPv4 header of a packet that has one.
pub fn ip_header(pkt: &[u8]) -> (len: Option<usize>)
    ensures
        match len {
            Some(n) => has_ip(pkt@) && n == ip_header_len(pkt@),
            None => !has_ip(pkt@),
        },
{
    if pkt.len() < 20 || pkt[0] / 16 != 4 {
        return None;
    }
    let n = (pkt[0] % 16) as usize * 4;
    if n < 20 || n > pkt.len() {
        return None;
    }
    Some(n)
}

/// Reads where the TCP header of a packet begins and how long it is, where
/// the packet has one.
pub fn tcp_header(pkt: &[u8]) -> (found: Option<(usize, usize)>)
    ensures
        match found {
            Some((at, n)) => has_tcp(pkt@) && at == ip_header_len(pkt@) && n == tcp_header_len(
                pkt@,
            ),
            None => !has_tcp(pkt@),
        },
{
    let at = match ip_header(pkt) {
        Some(n) => n,
        None => {
            return None;
        },
    };
    if pkt[9] != 6 || pkt[6] % 32 != 0 || pkt[7] != 0 || pkt.len() - at < 20 {
        return None;
    }
    let n = (pkt[at + 12] / 16) as usize * 4;
    if n < 20 || n > pkt.len() - at {
        return None;
    }
    Some((at, n))
}

/// Where a number lies in a packet: in `width` bytes from `at` on, read as
/// one number, of which it is the part above the divisor `low` and below
/// `span`.
pub struct Slot {
    pub at: int,
    pub width: int,
    pub low: int,
    pub span: int,
}

/// Where a field lies in a packet.
pub enum Place {
    /// The field is a number.
    Number(Slot),
    /// The field is the stretch of bytes between two positions.
    Bytes { from: int, to: int },
}

/// The slot of a number that fills `width` whole bytes.
pub open spec fn whole(at: int, width: int) -> Place {
    Place::Number(Slot { at, width, low: 1, span: span_of(width as nat) as int })
}

/// The slot of a number that is part of `width` bytes.
pub open spec fn part(at: int, width: int, low: int, span: int) -> Place {
    Place::Number(Slot { at, width, low, span })
}

/// Where a field of the IPv4 header lies, in a packet that has one.
pub open spec fn ip_place(field: IPField, pkt: Seq<u8>) -> Place {
    match field {
        IPField::Version => part(0, 1, 16, 16),
        IPField::IHL => part(0, 1, 1, 16),
        IPField::TOS => whole(1, 1),
        IPField::Length => whole(2, 2),
        IPField::Identification => whole(4, 2),
        IPField::Flags => part(6, 1, 32, 8),
        IPField::FragmentOffset => part(6, 2, 1, 8192),
        IPField::TTL => whole(8, 1),
        IPField::Protocol => whole(9, 1),
        IPField::Checksum => whole(10, 2),
        IPField::SourceAddress => whole(12, 4),
        IPField::DestAddress => whole(16, 4),
        IPField::Payload => Place::Bytes { from: ip_header_len(pkt), to: pkt.len() as int },
    }
}

/// The kind number of the TCP option that a field stands for.
pub open spec fn option_kind(field: TCPField) -> Option<u8> {
    match field {
        TCPField::OptionEOL => Some(0u8),
        TCPField::OptionNOP => Some(1u8),
        TCPField::OptionMSS => Some(2u8),
        TCPField::OptionWScale => Some(3u8),
        TCPField::OptionSackOk => Some(4u8),
        TCPField::OptionSack => Some(5u8),
        TCPField::OptionTimestamp => Some(8u8),
        TCPField::OptionAltChecksum => Some(14u8),
        TCPField::OptionAltChecksumOpt => Some(15u8),
        TCPField::OptionMD5Header => Some(19u8),
        TCPField::OptionUTO => Some(28u8),
        _ => None,
    }
}

/// The option's value is a number: the segment size, the window scale, the
/// checksum kind, the user timeout.
pub open spec fn option_is_number(kind: u8) -> bool {
    kind == 2 || kind == 3 || kind == 14 || kind == 28
}

/// Where the data of the first option of a kind lies among the options
/// between two positions: its start and its length. Options are walked one
/// by one; the walk ends without a find at the end-of-list option and at an
/// option whose length does not fit.
pub open spec fn option_at(pkt: Seq<u8>, from: int, to: int, kind: u8) -> Option<(int, int)>
    decreases to - from,
{
    if !(0 <= from < to <= pkt.len()) {
        None
    } else if pkt[from] == 0 || pkt[from] == 1 {
        if pkt[from] == kind {
            Some((from + 1, 0))
        } else if pkt[from] == 0 {
            None
        } else {
            option_at(pkt, from + 1, to, kind)
        }
    } else if from + 1 < to && 2 <= pkt[from + 1] && from + pkt[from + 1] <= to {
        if pkt[from] == kind {
            Some((from + 2, pkt[from + 1] - 2))
        } else {
            option_at(pkt, from + pkt[from + 1], to, kind)
        }
    } else {
        None
    }
}

/// Where a field of the TCP header lies, in a packet that has one. An option
/// lies nowhere in a packet that does not carry it, and a numeric option
/// nowhere unless its data is one to four bytes long.
pub open spec fn tcp_place(field: TCPField, pkt: Seq<u8>) -> Option<Place> {
    let at = ip_header_len(pkt);
    match field {
        TCPField::SourcePort => Some(whole(at, 2)),
        TCPField::DestPort => Some(whole(at + 2, 2)),
        TCPField::Sequence => Some(whole(at + 4, 4)),
        TCPField::Ack => Some(whole(at + 8, 4)),
        TCPField::DataOffset => Some(part(at + 12, 1, 16, 16)),
        TCPField::Reserved => Some(part(at + 12, 1, 2, 8)),
        TCPField::Flags => Some(part(at + 12, 2, 1, 512)),
        TCPField::Window => Some(whole(at + 14, 2)),
        TCPField::Checksum => Some(whole(at + 16, 2)),
        TCPField::UrgentPointer => Some(whole(at + 18, 2)),
        TCPField::Payload => Some(
            Place::Bytes { from: at + tcp_header_len(pkt), to: pkt.len() as int },
        ),
        _ => match option_at(pkt, at + 20, at + tcp_header_len(pkt), option_kind(field)->0) {
            None => None,
            Some((start, n)) => if option_is_number(option_kind(field)->0) {
                if 1 <= n <= 4 {
                    Some(whole(start, n))
                } else {
                    None
                }
            } else {
                Some(Place::Bytes { from: start, to: start + n })
            },
        },
    }
}

/// Where a field lies in a packet; nowhere in a packet that lacks the
/// field's layer.
pub open spec fn place_of(field: Field, pkt: Seq<u8>) -> Option<Place> {
    match field {
        Field::IP(f) => if has_ip(pkt) {
            Some(ip_place(f, pkt))
        } else {
            None
        },
        Field::TCP(f) => if has_tcp(pkt) {
            tcp_place(f, pkt)
        } else {
            None
        },
    }
}

/// The number that lies in a slot of a packet.
pub open spec fn slot_value(pkt: Seq<u8>, slot: Slot) -> nat {
    ((be_value(pkt.subrange(slot.at, slot.at + slot.width)) as int / slot.low)
        % slot.span) as nat
}

/// A slot that lies inside a packet of `len` bytes and is at most four bytes
/// wide.
pub open spec fn slot_fits(slot: Slot, len: int) -> bool {
    &&& 0 <= slot.at
    &&& 1 <= slot.width <= 4
    &&& slot.at + slot.width <= len
    &&& 1 <= slot.low
    &&& 1 <= slot.span <= 0x1_0000_0000
    &&& slot.low * slot.span <= span_of(slot.width as nat)
}

/// A place that lies inside a packet of `len` bytes.
pub open spec fn place_fits(place: Place, len: int) -> bool {
    match place {
        Place::Number(slot) => slot_fits(slot, len),
        Place::Bytes { from, to } => 0 <= from <= to <= len,
    }
}

/// Where a number lies in a packet; see [`Slot`].
#[derive(Debug, Clone, Copy)]
pub struct Spot {
    pub at: usize,
    pub width: usize,
    pub low: u64,
    pub span: u64,
}

impl View for Spot {
    type V = Slot;

    open spec fn view(&self) -> Slot {
        Slot {
            at: self.at as int,
            width: self.width as int,
            low: self.low as int,
            span: self.span as int,
        }
    }
}

/// Where a field lies in a packet; see [`Place`].
#[derive(Debug, Clone, Copy)]
pub enum Found {
    Number(Spot),
    Bytes(usize, usize),
}

impl View for Found {
    type V = Place;

    open spec fn view(&self) -> Place {
        match self {
            Found::Number(spot) => Place::Number(spot@),
            Found::Bytes(from, to) => Place::Bytes { from: *from as int, to: *to as int },
        }
    }
}

/// The spans of one to four bytes.
pub(crate) proof fn lemma_spans()
    ensures
        span_of(0) == 1,
        span_of(1) == 0x100,
        span_of(2) == 0x1_0000,
        span_of(3) == 0x100_0000,
        span_of(4) == 0x1_0000_0000,
{
    reveal_with_fuel(span_of, 5);
}

/// The spot of a number that fills `width` whole bytes.
fn whole_spot(at: usize, width: usize, Ghost(len): Ghost<int>) -> (found: Found)
    requires
        1 <= width <= 4,
        at + width <= len,
    ensures
        found@ == whole(at as int, width as int),
        place_fits(found@, len),
{
    proof {
        lemma_spans();
    }
    let span: u64 = if width == 1 {
        0x100
    } else if width == 2 {
        0x1_0000
    } else if width == 3 {
        0x100_0000
    } else {
        0x1_0000_0000
    };
    Found::Number(Spot { at, width, low: 1, span })
}

/// Finds where a field of the IPv4 header lies.
fn locate_ip(field: IPField, pkt: &[u8], header: usize) -> (found: Found)
    requires
        has_ip(pkt@),
        header == ip_header_len(pkt@),
    ensures
        found@ == ip_place(field, pkt@),
        place_fits(found@, pkt.len() as int),
{
    proof {
        lemma_spans();
    }
    match field {
        IPField::Version => Found::Number(Spot { at: 0, width: 1, low: 16, span: 16 }),
        IPField::IHL => Found::Number(Spot { at: 0, width: 1, low: 1, span: 16 }),
        IPField::TOS => whole_spot(1, 1, Ghost(pkt.len() as int)),
        IPField::Length => whole_spot(2, 2, Ghost(pkt.len() as int)),
        IPField::Identification => whole_spot(4, 2, Ghost(pkt.len() as int)),
        IPField::Flags => Found::Number(Spot { at: 6, width: 1, low: 32, span: 8 }),
        IPField::FragmentOffset => Found::Number(Spot { at: 6, width: 2, low: 1, span: 8192 }),
        IPField::TTL => whole_spot(8, 1, Ghost(pkt.len() as int)),
        IPField::Protocol => whole_spot(9, 1, Ghost(pkt.len() as int)),
        IPField::Checksum => whole_spot(10, 2, Ghost(pkt.len() as int)),
        IPField::SourceAddress => whole_spot(12, 4, Ghost(pkt.len() as int)),
        IPField::DestAddress => whole_spot(16, 4, Ghost(pkt.len() as int)),
        IPField::Payload => Found::Bytes(header, pkt.len()),
    }
}

/// The kind number of the TCP option that a field stands for.
fn kind_of(field: TCPField) -> (kind: Option<u8>)
    ensures
        kind == option_kind(field),
{
    match field {
        TCPField::OptionEOL => Some(0u8),
        TCPField::OptionNOP => Some(1u8),
        TCPField::OptionMSS => Some(2u8),
        TCPField::OptionWScale => Some(3u8),
        TCPField::OptionSackOk => Some(4u8),
        TCPField::OptionSack => Some(5u8),
        TCPField::OptionTimestamp => Some(8u8),
        TCPField::OptionAltChecksum => Some(14u8),
        TCPField::OptionAltChecksumOpt => Some(15u8),
        TCPField::OptionMD5Header => Some(19u8),
        TCPField::OptionUTO => Some(28u8),
        _ => None,
    }
}

/// Finds the data of the first option of a kind among the options between
/// two positions.
fn find_option(pkt: &[u8], from: usize, to: usize, kind: u8) -> (found: Option<(usize, usize)>)
    requires
        from <= to <= pkt.len(),
    ensures
        match found {
            Some((start, n)) => option_at(pkt@, from as int, to as int, kind) == Some(
                (start as int, n as int),
            ) && from <= start && start + n <= to,
            None => option_at(pkt@, from as int, to as int, kind) is None,
        },
{
    let mut at: usize = from;
    while at < to
        invariant
            from <= at <= to <= pkt.len(),
            option_at(pkt@, from as int, to as int, kind) == option_at(
                pkt@,
                at as int,
                to as int,
                kind,
            ),
        decreases to - at,
    {
        let k = pkt[at];
        if k == 0 || k == 1 {
            if k == kind {
                return Some((at + 1, 0));
            }
            if k == 0 {
                return None;
            }
            at += 1;
        } else {
            if to - at < 2 {
                return None;
            }
            let n = pkt[at + 1] as usize;
            if n < 2 || n > to - at {
                return None;
            }
            if k == kind {
                return Some((at + 2, n - 2));
            }
            at += n;
        }
    }
    None
}

/// Finds where a field of the TCP header lies.
fn locate_tcp(field: TCPField, pkt: &[u8], at: usize, header: usize) -> (found: Option<Found>)
    requires
        has_tcp(pkt@),
        at == ip_header_len(pkt@),
        header == tcp_header_len(pkt@),
    ensures
        match found {
            Some(f) => tcp_place(field, pkt@) == Some(f@) && place_fits(f@, pkt.len() as int),
            None => tcp_place(field, pkt@) is None,
        },
{
    proof {
        lemma_spans();
    }
    match field {
        TCPField::SourcePort => Some(whole_spot(at, 2, Ghost(pkt.len() as int))),
        TCPField::DestPort => Some(whole_spot(at + 2, 2, Ghost(pkt.len() as int))),
        TCPField::Sequence => Some(whole_spot(at + 4, 4, Ghost(pkt.len() as int))),
        TCPField::Ack => Some(whole_spot(at + 8, 4, Ghost(pkt.len() as int))),
        TCPField::DataOffset => Some(
            Found::Number(Spot { at: at + 12, width: 1, low: 16, span: 16 }),
        ),
        TCPField::Reserved => Some(Found::Number(Spot { at: at + 12, width: 1, low: 2, span: 8 })),
        TCPField::Flags => Some(Found::Number(Spot { at: at + 12, width: 2, low: 1, span: 512 })),
        TCPField::Window => Some(whole_spot(at + 14, 2, Ghost(pkt.len() as int))),
        TCPField::Checksum => Some(whole_spot(at + 16, 2, Ghost(pkt.len() as int))),
        TCPField::UrgentPointer => Some(whole_spot(at + 18, 2, Ghost(pkt.len() as int))),
        TCPField::Payload => Some(Found::Bytes(at + header, pkt.len())),
        _ => {
            let kind = match kind_of(field) {
                Some(kind) => kind,
                None => {
                    return None;
                },
            };
            match find_option(pkt, at + 20, at + header, kind) {
                None => None,
                Some((start, n)) => if kind == 2 || kind == 3 || kind == 14 || kind == 28 {
                    if 1 <= n && n <= 4 {
                        Some(whole_spot(start, n, Ghost(pkt.len() as int)))
                    } else {
                        None
                    }
                } else {
                    Some(Found::Bytes(start, start + n))
                },
            }
        },
    }
}

/// Finds where a field lies in a packet.
pub fn locate(field: Field, pkt: &[u8]) -> (found: Option<Found>)
    ensures
        match found {
            Some(f) => place_of(field, pkt@) == Some(f@) && place_fits(f@, pkt.len() as int),
            None => place_of(field, pkt@) is None,
        },
{
    match field {
        Field::IP(f) => match ip_header(pkt) {
            Some(header) => Some(locate_ip(f, pkt, header)),
            None => None,
        },
        Field::TCP(f) => match tcp_header(pkt) {
            Some((at, header)) => locate_tcp(f, pkt, at, header),
            None => None,
        },
    }
}

/// Reads the number that lies in a slot of a packet.
pub(crate) fn read_slot(pkt: &[u8], spot: Spot) -> (value: u64)
    requires
        slot_fits(spot@, pkt.len() as int),
    ensures
        value == slot_value(pkt@, spot@),
        value < spot.span,
{
    (read_be(pkt, spot.at, spot.width) / spot.low) % spot.span
}

/// The number that `width` bytes hold after `n` was put into the part of them
/// above the divisor `low` and below `span`.
pub open spec fn put_in(held: int, low: int, span: int, n: int) -> int {
    held - ((held / low) % span) * low + n * low
}

/// The packet with the number `n` put into a slot; the bits around the slot
/// stay.
pub open spec fn with_slot(pkt: Seq<u8>, slot: Slot, n: nat) -> Seq<u8> {
    let held = be_value(pkt.subrange(slot.at, slot.at + slot.width));
    spliced(
        pkt,
        slot.at,
        slot.at + slot.width,
        be_bytes(put_in(held as int, slot.low, slot.span, n as int) as nat, slot.width as nat),
    )
}

/// Puts a number into a slot of a packet.
pub(crate) fn write_slot(pkt: &[u8], spot: Spot, n: u64) -> (out: Vec<u8>)
    requires
        slot_fits(spot@, pkt.len() as int),
        n < spot.span,
    ensures
        out@ == with_slot(pkt@, spot@, n as nat),
        out.len() == pkt.len(),
{
    let held = read_be(pkt, spot.at, spot.width);
    let old = (held / spot.low) % spot.span;
    proof {
        let h = held as int;
        let low = spot.low as int;
        let span = spot.span as int;
        let q = h / low;
        assert(0 <= q) by (nonlinear_arith)
            requires
                low >= 1,
                h >= 0,
                q == h / low,
        ;
        assert(q % span <= q) by (nonlinear_arith)
            requires
                q >= 0,
                span >= 1,
        ;
        assert(old <= h / low);
        assert((h / low) * low <= h) by (nonlinear_arith)
            requires
                low >= 1,
                h >= 0,
        ;
        assert(old * low <= (h / low) * low) by (nonlinear_arith)
            requires
                old <= h / low,
                low >= 1,
        ;
        assert(n * low <= (span - 1) * low) by (nonlinear_arith)
            requires
                n <= span - 1,
                low >= 1,
        ;
        assert((span - 1) * low == low * span - low) by (nonlinear_arith);
        lemma_spans();
        assert(n * low <= 0x1_0000_0000);
    }
    let put = held - old * spot.low + n * spot.low;
    proof {
        lemma_be_bytes(put as nat, spot.width as nat);
    }
    let mut out: Vec<u8> = Vec::new();
    push_range(&mut out, pkt, 0, spot.at);
    push_be(&mut out, put, spot.width);
    push_range(&mut out, pkt, spot.at + spot.width, pkt.len());
    out
}

/// The packet with the total length in its IPv4 header set to the length
/// that the packet has; none where no 16 bits hold that length.
pub open spec fn refitted(pkt: Seq<u8>) -> Option<Seq<u8>> {
    if pkt.len() <= 0xffff {
        Some(spliced(pkt, 2, 4, be_bytes(pkt.len(), 2)))
    } else {
        None
    }
}

/// Sets the total length in the IPv4 header to the length of the packet.
pub(crate) fn refit(pkt: Vec<u8>) -> (out: Option<Vec<u8>>)
    requires
        pkt.len() >= 4,
    ensures
        match out {
            Some(fitted) => refitted(pkt@) == Some(fitted@),
            None => refitted(pkt@) is None,
        },
{
    if pkt.len() > 0xffff {
        return None;
    }
    let mut out: Vec<u8> = Vec::new();
    push_range(&mut out, pkt.as_slice(), 0, 2);
    push_be(&mut out, pkt.len() as u64, 2);
    push_range(&mut out, pkt.as_slice(), 4, pkt.len());
    Some(out)
}

/// Putting a number into a part of a number gives a number of which that
/// part is the number put in, and of which the parts below and above are as
/// before.
pub proof fn law_put_in_reads_back(held: int, low: int, span: int, n: int)
    requires
        0 <= held,
        1 <= low,
        1 <= span,
        0 <= n < span,
    ensures
        (put_in(held, low, span, n) / low) % span == n,
        put_in(held, low, span, n) % low == held % low,
        put_in(held, low, span, n) / (low * span) == held / (low * span),
        0 <= put_in(held, low, span, n),
{
    let q = held / low;
    let r = held % low;
    let old = q % span;
    let top = q / span;
    let put = put_in(held, low, span, n);
    vstd::arithmetic::div_mod::lemma_fundamental_div_mod(held, low);
    vstd::arithmetic::div_mod::lemma_fundamental_div_mod(q, span);
    assert(0 <= q) by (nonlinear_arith)
        requires
            0 <= held,
            1 <= low,
            q == held / low,
    ;
    assert(0 <= top) by (nonlinear_arith)
        requires
            0 <= q,
            1 <= span,
            top == q / span,
    ;
    assert(0 <= r < low);
    assert(0 <= old < span);
    let now = top * span + n;
    assert(put == now * low + r) by (nonlinear_arith)
        requires
            put == held - old * low + n * low,
            held == low * q + r,
            q == span * top + old,
            now == top * span + n,
    ;
    assert(0 <= now) by (nonlinear_arith)
        requires
            0 <= top,
            1 <= span,
            0 <= n,
            now == top * span + n,
    ;
    vstd::arithmetic::div_mod::lemma_fundamental_div_mod_converse(put, low, now, r);
    vstd::arithmetic::div_mod::lemma_fundamental_div_mod_converse(now, span, top, n);
    assert(0 <= put) by (nonlinear_arith)
        requires
            put == now * low + r,
            0 <= now,
            1 <= low,
            0 <= r,
    ;
    // the part above
    let rest = n * low + r;
    assert(0 <= rest < low * span) by (nonlinear_arith)
        requires
            rest == n * low + r,
            0 <= n < span,
            0 <= r < low,
            1 <= low,
    ;
    assert(put == top * (low * span) + rest) by (nonlinear_arith)
        requires
            put == now * low + r,
            now == top * span + n,
            rest == n * low + r,
    ;
    vstd::arithmetic::div_mod::lemma_fundamental_div_mod_converse(put, low * span, top, rest);
    let before = old * low + r;
    assert(0 <= before < low * span) by (nonlinear_arith)
        requires
            before == old * low + r,
            0 <= old < span,
            0 <= r < low,
            1 <= low,
    ;
    assert(held == top * (low * span) + before) by (nonlinear_arith)
        requires
            held == low * q + r,
            q == span * top + old,
            before == old * low + r,
    ;
    vstd::arithmetic::div_mod::lemma_fundamental_div_mod_converse(held, low * span, top, before);
}

/// The slot takes up whole bits of its bytes: what lies above it in them is
/// cut off cleanly.
pub open spec fn slot_is_clean(slot: Slot) -> bool {
    span_of(slot.width as nat) as int % (slot.low * slot.span) == 0
}

/// A number that was put into a slot of a packet is read back from the
/// slot, and the packet is as long as before.
pub proof fn law_slot_reads_back(pkt: Seq<u8>, slot: Slot, n: nat)
    requires
        slot_fits(slot, pkt.len() as int),
        slot_is_clean(slot),
        n < slot.span,
    ensures
        slot_value(with_slot(pkt, slot, n), slot) == n,
        with_slot(pkt, slot, n).len() == pkt.len(),
{
    let held = be_value(pkt.subrange(slot.at, slot.at + slot.width)) as int;
    let put = put_in(held, slot.low, slot.span, n as int);
    law_put_in_reads_back(held, slot.low, slot.span, n as int);
    lemma_be_value_bound(pkt.subrange(slot.at, slot.at + slot.width));
    // what is put stays below the span of the bytes, so the bytes hold it
    let whole = span_of(slot.width as nat) as int;
    let m = slot.low * slot.span;
    assert(1 <= m) by (nonlinear_arith)
        requires
            m == slot.low * slot.span,
            1 <= slot.low,
            1 <= slot.span,
    ;
    let top = held / m;
    let k = whole / m;
    vstd::arithmetic::div_mod::lemma_fundamental_div_mod(whole, m);
    vstd::arithmetic::div_mod::lemma_fundamental_div_mod(held, m);
    vstd::arithmetic::div_mod::lemma_fundamental_div_mod(put, m);
    vstd::arithmetic::div_mod::lemma_mod_bound(held, m);
    vstd::arithmetic::div_mod::lemma_mod_bound(put, m);
    assert(top < k) by (nonlinear_arith)
        requires
            held == m * top + held % m,
            0 <= held % m,
            held < whole,
            whole == m * k,
            1 <= m,
    ;
    assert(put < whole) by (nonlinear_arith)
        requires
            put == m * top + put % m,
            put % m < m,
            top + 1 <= k,
            whole == m * k,
            1 <= m,
    ;
    lemma_be_bytes(put as nat, slot.width as nat);
    let bytes = be_bytes(put as nat, slot.width as nat);
    assert(with_slot(pkt, slot, n).subrange(slot.at, slot.at + slot.width) == bytes);
}

/// Every field that is a number lies in a slot that fits the packet and
/// takes up whole bits: so a number that `tamper` puts there is read back by
/// a trigger on the same field.
pub proof fn law_field_reads_back(field: Field, pkt: Seq<u8>, n: nat)
    requires
        place_of(field, pkt) matches Some(Place::Number(slot)) && n < slot.span,
    ensures
        place_of(field, pkt) matches Some(Place::Number(slot)) && slot_value(
            with_slot(pkt, slot, n),
            slot,
        ) == n,
{
    lemma_place_is_clean(field, pkt);
    match place_of(field, pkt) {
        Some(Place::Number(slot)) => {
            law_slot_reads_back(pkt, slot, n);
        },
        _ => {},
    }
}

/// A whole slot of one to four bytes takes up whole bits.
proof fn lemma_whole_is_clean(at: int, width: int, len: int)
    requires
        0 <= at,
        1 <= width <= 4,
        at + width <= len,
    ensures
        whole(at, width) matches Place::Number(slot) && slot_fits(slot, len) && slot_is_clean(
            slot,
        ),
{
    lemma_spans();
}

/// A slot that is part of one or two bytes takes up whole bits where its
/// divisor and its span are powers of two that fit.
proof fn lemma_part_is_clean(at: int, width: int, low: int, span: int, len: int)
    requires
        0 <= at,
        at + width <= len,
        (width == 1 && low * span <= 256 && 256int % (low * span) == 0) || (width == 2 && low
            * span <= 65536 && 65536int % (low * span) == 0),
        1 <= low,
        1 <= span,
    ensures
        part(at, width, low, span) matches Place::Number(slot) && slot_fits(slot, len)
            && slot_is_clean(slot),
{
    lemma_spans();
    assert(span <= low * span) by (nonlinear_arith)
        requires
            1 <= low,
            1 <= span,
    ;
}

/// Every field that is a number lies in a slot that fits the packet and
/// takes up whole bits.
proof fn lemma_place_is_clean(field: Field, pkt: Seq<u8>)
    ensures
        place_of(field, pkt) matches Some(Place::Number(slot)) ==> slot_fits(
            slot,
            pkt.len() as int,
        ) && slot_is_clean(slot),
{
    let len = pkt.len() as int;
    match field {
        Field::IP(f) => {
            if has_ip(pkt) {
                match f {
                    IPField::Version => lemma_part_is_clean(0, 1, 16, 16, len),
                    IPField::IHL => lemma_part_is_clean(0, 1, 1, 16, len),
                    IPField::TOS => lemma_whole_is_clean(1, 1, len),
                    IPField::Length => lemma_whole_is_clean(2, 2, len),
                    IPField::Identification => lemma_whole_is_clean(4, 2, len),
                    IPField::Flags => lemma_part_is_clean(6, 1, 32, 8, len),
                    IPField::FragmentOffset => lemma_part_is_clean(6, 2, 1, 8192, len),
                    IPField::TTL => lemma_whole_is_clean(8, 1, len),
                    IPField::Protocol => lemma_whole_is_clean(9, 1, len),
                    IPField::Checksum => lemma_whole_is_clean(10, 2, len),
                    IPField::SourceAddress => lemma_whole_is_clean(12, 4, len),
                    IPField::DestAddress => lemma_whole_is_clean(16, 4, len),
                    IPField::Payload => {},
                }
            }
        },
        Field::TCP(f) => {
            if has_tcp(pkt) {
                let at = ip_header_len(pkt);
                match f {
                    TCPField::SourcePort => lemma_whole_is_clean(at, 2, len),
                    TCPField::DestPort => lemma_whole_is_clean(at + 2, 2, len),
                    TCPField::Sequence => lemma_whole_is_clean(at + 4, 4, len),
                    TCPField::Ack => lemma_whole_is_clean(at + 8, 4, len),
                    TCPField::DataOffset => lemma_part_is_clean(at + 12, 1, 16, 16, len),
                    TCPField::Reserved => lemma_part_is_clean(at + 12, 1, 2, 8, len),
                    TCPField::Flags => lemma_part_is_clean(at + 12, 2, 1, 512, len),
                    TCPField::Window => lemma_whole_is_clean(at + 14, 2, len),
                    TCPField::Checksum => lemma_whole_is_clean(at + 16, 2, len),
                    TCPField::UrgentPointer => lemma_whole_is_clean(at + 18, 2, len),
                    TCPField::Payload => {},
                    _ => {
                        let kind = option_kind(f)->0;
                        lemma_option_lies_inside(pkt, at + 20, at + tcp_header_len(pkt), kind);
                        match option_at(pkt, at + 20, at + tcp_header_len(pkt), kind) {
                            Some((start, n)) => {
                                if option_is_number(kind) && 1 <= n <= 4 {
                                    lemma_whole_is_clean(start, n, len);
                                }
                            },
                            None => {},
                        }
                    },
                }
            }
        },
    }
}

/// The data of an option that is found lies among the options.
proof fn lemma_option_lies_inside(pkt: Seq<u8>, from: int, to: int, kind: u8)
    ensures
        option_at(pkt, from, to, kind) matches Some(found) ==> from <= found.0 && 0 <= found.1
            && found.0 + found.1 <= to && to <= pkt.len(),
    decreases to - from,
{
    if 0 <= from < to <= pkt.len() {
        if pkt[from] == 0 || pkt[from] == 1 {
            if pkt[from] != kind && pkt[from] != 0 {
                lemma_option_lies_inside(pkt, from + 1, to, kind);
            }
        } else if from + 1 < to && 2 <= pkt[from + 1] && from + pkt[from + 1] <= to {
            if pkt[from] != kind {
                lemma_option_lies_inside(pkt, from + pkt[from + 1], to, kind);
            }
        }
    }
}

/// Two byte strings are as long as each other and hold the same bytes from
/// a position on.
pub open spec fn same_from(a: Seq<u8>, b: Seq<u8>, from: int) -> bool {
    &&& a.len() == b.len()
    &&& forall|i: int| from <= i < a.len() ==> a[i] == b[i]
}

/// Putting a number into a slot changes nothing behind the slot, nor the
/// length of the packet.
pub(crate) proof fn lemma_with_slot_keeps(pkt: Seq<u8>, slot: Slot, n: nat, from: int)
    requires
        0 <= slot.at,
        0 <= slot.width,
        slot.at + slot.width <= from,
        slot.at + slot.width <= pkt.len(),
    ensures
        same_from(with_slot(pkt, slot, n), pkt, from),
        slot.at > 0 ==> with_slot(pkt, slot, n)[0] == pkt[0],
{
    let held = be_value(pkt.subrange(slot.at, slot.at + slot.width));
    lemma_be_bytes(
        put_in(held as int, slot.low, slot.span, n as int) as nat,
        slot.width as nat,
    );
}

/// Setting the total length changes nothing behind it, nor the length of the
/// packet.
pub(crate) proof fn lemma_refitted_keeps(pkt: Seq<u8>, from: int)
    requires
        4 <= pkt.len() <= 0xffff,
        4 <= from,
    ensures
        refitted(pkt) matches Some(fitted) && same_from(fitted, pkt, from) && fitted[0] == pkt[0],
{
    lemma_be_bytes(pkt.len(), 2);
}

} // verus!
