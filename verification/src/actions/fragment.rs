//! The `fragment` action.

use crate::actions::{fragment_head_text, join, push_pair, ran, ActionModel, GenevaAction};
use crate::packet::Packet;
use crate::errors::{Error, Fault};
use crate::text::{decimal, push_decimal};
use crate::wire::bytes::{splice, spliced};
use crate::wire::checksum::{lemma_sealed_keeps, seal, seal_ip, sealed, with_ip_checksum};
use crate::wire::{
    has_ip, has_tcp, ip_header, ip_header_len, lemma_refitted_keeps, lemma_spans,
    lemma_with_slot_keeps, read_slot, same_from, refit, refitted, slot_value,
    tcp_header, tcp_header_len, with_slot, write_slot, Slot, Spot,
};
use vstd::prelude::*;
use vstd::string::StringExecFns;

verus! {

/// The protocol number that names the IPv4 layer.
pub const LAYER_IP: u16 = 4;

/// The protocol number that names the TCP layer.
pub const LAYER_TCP: u16 = 6;

/// The smaller of two numbers.
pub open spec fn least(a: int, b: int) -> int {
    if a <= b {
        a
    } else {
        b
    }
}

/// The slot of the sequence number of a TCP header that begins at `at`.
pub open spec fn sequence_slot(at: int) -> Slot {
    Slot { at: at + 4, width: 4, low: 1, span: 0x1_0000_0000 }
}

/// The slot of the flags of the IPv4 header.
pub open spec fn ip_flags_slot() -> Slot {
    Slot { at: 6, width: 1, low: 32, span: 8 }
}

/// The slot of the fragment offset of the IPv4 header.
pub open spec fn offset_slot() -> Slot {
    Slot { at: 6, width: 2, low: 1, span: 8192 }
}

/// A piece of a packet made ready to leave as a TCP segment of its own: the
/// total length in the IPv4 header follows the piece, and both checksums are
/// set right.
pub open spec fn as_segment(piece: Seq<u8>) -> Result<Seq<u8>, Fault> {
    match refitted(piece) {
        Some(fitted) => Ok(sealed(fitted)),
        None => Err(Fault::Malformed),
    }
}

/// A piece of a packet made ready to leave as an IP fragment: the total
/// length in the IPv4 header follows the piece, and the checksum of that
/// header is set right.
pub open spec fn as_fragment(piece: Seq<u8>) -> Result<Seq<u8>, Fault> {
    match refitted(piece) {
        Some(fitted) => Ok(with_ip_checksum(fitted)),
        None => Err(Fault::Malformed),
    }
}

/// Two results as one: the first error, or both values.
pub open spec fn paired(first: Result<Seq<u8>, Fault>, second: Result<Seq<u8>, Fault>) -> Result<
    (Seq<u8>, Seq<u8>),
    Fault,
> {
    match first {
        Err(e) => Err(e),
        Ok(a) => match second {
            Err(e) => Err(e),
            Ok(b) => Ok((a, b)),
        },
    }
}

/// The two segments that a TCP segment is cut into after `size` bytes of
/// payload, or at the end of the payload where it is shorter.
///
/// Both keep the headers of the packet. The first carries the payload up to
/// the cut; the second carries the rest, and its sequence number is further
/// by the length of the first's payload. A packet without a TCP layer cannot
/// be cut.
#[verifier::opaque]
pub open spec fn tcp_fragments(size: int, pkt: Seq<u8>) -> Result<(Seq<u8>, Seq<u8>), Fault> {
    let at = ip_header_len(pkt);
    let data = at + tcp_header_len(pkt);
    let cut = least(size, pkt.len() - data);
    let sequence = slot_value(pkt, sequence_slot(at));
    let later = with_slot(pkt, sequence_slot(at), ((sequence + cut) % 0x1_0000_0000) as nat);
    if !has_tcp(pkt) {
        Err(Fault::Malformed)
    } else {
        paired(
            as_segment(spliced(pkt, data + cut, pkt.len() as int, Seq::empty())),
            as_segment(spliced(later, data, data + cut, Seq::empty())),
        )
    }
}

/// The two fragments that an IPv4 packet is cut into after `size` bytes of
/// payload, or at the end of the payload where it is shorter.
///
/// Both keep the IPv4 header of the packet. The first carries the payload up
/// to the cut and says that more fragments follow; the second carries the
/// rest, and its fragment offset is further by the length of the first's
/// payload in units of eight bytes. So the cut must fall on a multiple of
/// eight, unless it is the end of the payload: a `size` that does not is
/// handed back as an unknown token. A packet without an IPv4 header cannot be
/// cut, nor one whose second fragment would lie beyond what the offset field
/// can say.
#[verifier::opaque]
pub open spec fn ip_fragments(size: int, pkt: Seq<u8>) -> Result<(Seq<u8>, Seq<u8>), Fault> {
    let data = ip_header_len(pkt);
    let cut = least(size, pkt.len() - data);
    let flags = slot_value(pkt, ip_flags_slot());
    let offset = slot_value(pkt, offset_slot()) + (cut + 7) / 8;
    let earlier = with_slot(pkt, ip_flags_slot(), (flags - flags % 2 + 1) as nat);
    let later = with_slot(pkt, offset_slot(), offset as nat);
    if !has_ip(pkt) {
        Err(Fault::Malformed)
    } else if cut % 8 != 0 && cut != pkt.len() - data {
        Err(Fault::Parse(decimal(size as nat)))
    } else if offset >= 8192 {
        Err(Fault::Malformed)
    } else {
        paired(
            as_fragment(spliced(earlier, data + cut, pkt.len() as int, Seq::empty())),
            as_fragment(spliced(later, data, data + cut, Seq::empty())),
        )
    }
}

/// The two pieces that `fragment` cuts a packet into. The layer is named by
/// its protocol number, 4 for IPv4 and 6 for TCP; any other number is handed
/// back as an unknown token.
pub open spec fn fragments(protocol: u16, size: u16, pkt: Seq<u8>) -> Result<
    (Seq<u8>, Seq<u8>),
    Fault,
> {
    if protocol == LAYER_TCP {
        tcp_fragments(size as int, pkt)
    } else if protocol == LAYER_IP {
        ip_fragments(size as int, pkt)
    } else {
        Err(Fault::Parse(decimal(protocol as nat)))
    }
}

/// The two segments that a TCP segment is cut into carry its payload between
/// them, the first up to the cut and the second from the cut on: nothing of
/// the payload is lost, and nothing is carried twice. Each is as long as its
/// part of the payload and the headers.
pub proof fn law_tcp_fragments_part_the_payload(size: int, pkt: Seq<u8>)
    requires
        0 <= size,
        tcp_fragments(size, pkt) is Ok,
    ensures
        ({
            let pieces = tcp_fragments(size, pkt)->Ok_0;
            let data = ip_header_len(pkt) + tcp_header_len(pkt);
            let cut = least(size, pkt.len() - data);
            &&& pieces.0.len() == data + cut
            &&& pieces.1.len() == pkt.len() - cut
            &&& pieces.0.subrange(data, data + cut) == pkt.subrange(data, data + cut)
            &&& pieces.1.subrange(data, pkt.len() - cut) == pkt.subrange(
                data + cut,
                pkt.len() as int,
            )
        }),
{
    reveal(tcp_fragments);
    let at = ip_header_len(pkt);
    let data = at + tcp_header_len(pkt);
    let cut = least(size, pkt.len() - data);
    let sequence = slot_value(pkt, sequence_slot(at));
    let later = with_slot(pkt, sequence_slot(at), ((sequence + cut) % 0x1_0000_0000) as nat);
    lemma_with_slot_keeps(
        pkt,
        sequence_slot(at),
        ((sequence + cut) % 0x1_0000_0000) as nat,
        data,
    );
    let head = spliced(pkt, data + cut, pkt.len() as int, Seq::empty());
    let tail = spliced(later, data, data + cut, Seq::empty());
    lemma_piece_is_kept(head, data, true);
    lemma_piece_is_kept(tail, data, true);
    let pieces = tcp_fragments(size, pkt)->Ok_0;
    assert(pieces.0.subrange(data, data + cut) =~= pkt.subrange(data, data + cut));
    assert(pieces.1.subrange(data, pkt.len() - cut) =~= pkt.subrange(
        data + cut,
        pkt.len() as int,
    ));
}

/// The two fragments that an IPv4 packet is cut into carry its payload
/// between them, the first up to the cut and the second from the cut on:
/// nothing of the payload is lost, and nothing is carried twice. Each is as
/// long as its part of the payload and the header.
pub proof fn law_ip_fragments_part_the_payload(size: int, pkt: Seq<u8>)
    requires
        0 <= size,
        ip_fragments(size, pkt) is Ok,
    ensures
        ({
            let pieces = ip_fragments(size, pkt)->Ok_0;
            let data = ip_header_len(pkt);
            let cut = least(size, pkt.len() - data);
            &&& pieces.0.len() == data + cut
            &&& pieces.1.len() == pkt.len() - cut
            &&& pieces.0.subrange(data, data + cut) == pkt.subrange(data, data + cut)
            &&& pieces.1.subrange(data, pkt.len() - cut) == pkt.subrange(
                data + cut,
                pkt.len() as int,
            )
        }),
{
    reveal(ip_fragments);
    let data = ip_header_len(pkt);
    let cut = least(size, pkt.len() - data);
    let flags = slot_value(pkt, ip_flags_slot());
    let offset = slot_value(pkt, offset_slot()) + (cut + 7) / 8;
    let earlier = with_slot(pkt, ip_flags_slot(), (flags - flags % 2 + 1) as nat);
    let later = with_slot(pkt, offset_slot(), offset as nat);
    lemma_with_slot_keeps(pkt, ip_flags_slot(), (flags - flags % 2 + 1) as nat, data);
    lemma_with_slot_keeps(pkt, offset_slot(), offset as nat, data);
    let head = spliced(earlier, data + cut, pkt.len() as int, Seq::empty());
    let tail = spliced(later, data, data + cut, Seq::empty());
    lemma_piece_is_kept(head, data, false);
    lemma_piece_is_kept(tail, data, false);
    let pieces = ip_fragments(size, pkt)->Ok_0;
    assert(pieces.0.subrange(data, data + cut) =~= pkt.subrange(data, data + cut));
    assert(pieces.1.subrange(data, pkt.len() - cut) =~= pkt.subrange(
        data + cut,
        pkt.len() as int,
    ));
}

/// Making a piece ready to leave changes nothing behind its headers, nor its
/// length.
proof fn lemma_piece_is_kept(piece: Seq<u8>, data: int, segment: bool)
    requires
        piece.len() >= 20,
        data >= 20,
        (segment ==> data >= ip_header_len(piece) + 20),
        (if segment {
            as_segment(piece)
        } else {
            as_fragment(piece)
        }) is Ok,
    ensures
        same_from(
            (if segment {
                as_segment(piece)
            } else {
                as_fragment(piece)
            })->Ok_0,
            piece,
            data,
        ),
{
    lemma_refitted_keeps(piece, data);
    let fitted = refitted(piece)->0;
    lemma_sealed_keeps(fitted, if segment {
        data
    } else {
        (ip_header_len(piece) + 18) as int
    });
    if !segment {
        // only the header checksum was set, which lies before the data
        assert(same_from(with_ip_checksum(fitted), fitted, data)) by {
            if has_ip(fitted) {
                crate::wire::bytes::lemma_be_bytes(crate::wire::checksum::ip_checksum(fitted), 2);
            }
        }
    }
}

/// The error that hands a number back as an unknown token.
fn unknown_number(n: u16) -> (e: Error)
    ensures
        e@ == Fault::Parse(decimal(n as nat)),
{
    let mut text = String::new();
    push_decimal(&mut text, n as u64);
    Error::Parse(text)
}

/// Makes a piece of a packet ready to leave as a TCP segment of its own.
fn into_segment(piece: Vec<u8>) -> (out: Result<Vec<u8>, Error>)
    requires
        piece.len() >= 4,
    ensures
        match out {
            Ok(p) => as_segment(piece@) == Ok::<_, Fault>(p@),
            Err(e) => as_segment(piece@) == Err::<Seq<u8>, _>(e@),
        },
{
    match refit(piece) {
        Some(fitted) => Ok(seal(fitted)),
        None => Err(Error::Malformed),
    }
}

/// Makes a piece of a packet ready to leave as an IP fragment.
fn into_fragment(piece: Vec<u8>) -> (out: Result<Vec<u8>, Error>)
    requires
        piece.len() >= 4,
    ensures
        match out {
            Ok(p) => as_fragment(piece@) == Ok::<_, Fault>(p@),
            Err(e) => as_fragment(piece@) == Err::<Seq<u8>, _>(e@),
        },
{
    match refit(piece) {
        Some(fitted) => Ok(seal_ip(fitted)),
        None => Err(Error::Malformed),
    }
}

/// Cuts a TCP segment in two.
fn fragment_tcp(size: u16, pkt: &[u8]) -> (out: Result<(Vec<u8>, Vec<u8>), Error>)
    ensures
        match out {
            Ok(pieces) => tcp_fragments(size as int, pkt@) == Ok::<_, Fault>(
                (pieces.0@, pieces.1@),
            ),
            Err(e) => tcp_fragments(size as int, pkt@) == Err::<(Seq<u8>, Seq<u8>), _>(e@),
        },
{
    reveal(tcp_fragments);
    let (at, header) = match tcp_header(pkt) {
        Some(found) => found,
        None => {
            return Err(Error::Malformed);
        },
    };
    let data = at + header;
    let cut = if (size as usize) <= pkt.len() - data {
        size as usize
    } else {
        pkt.len() - data
    };
    let spot = Spot { at: at + 4, width: 4, low: 1, span: 0x1_0000_0000 };
    proof {
        lemma_spans();
    }
    let sequence = read_slot(pkt, spot);
    let later = write_slot(pkt, spot, (sequence + cut as u64) % 0x1_0000_0000);
    let none: Vec<u8> = Vec::new();
    let first = match into_segment(splice(pkt, data + cut, pkt.len(), none.as_slice())) {
        Ok(p) => p,
        Err(e) => {
            return Err(e);
        },
    };
    let second = match into_segment(splice(later.as_slice(), data, data + cut, none.as_slice())) {
        Ok(p) => p,
        Err(e) => {
            return Err(e);
        },
    };
    Ok((first, second))
}

/// Cuts an IPv4 packet in two.
fn fragment_ip(size: u16, pkt: &[u8]) -> (out: Result<(Vec<u8>, Vec<u8>), Error>)
    ensures
        match out {
            Ok(pieces) => ip_fragments(size as int, pkt@) == Ok::<_, Fault>(
                (pieces.0@, pieces.1@),
            ),
            Err(e) => ip_fragments(size as int, pkt@) == Err::<(Seq<u8>, Seq<u8>), _>(e@),
        },
{
    reveal(ip_fragments);
    let data = match ip_header(pkt) {
        Some(n) => n,
        None => {
            return Err(Error::Malformed);
        },
    };
    let cut = if (size as usize) <= pkt.len() - data {
        size as usize
    } else {
        pkt.len() - data
    };
    if cut % 8 != 0 && cut != pkt.len() - data {
        return Err(unknown_number(size));
    }
    let flags_spot = Spot { at: 6, width: 1, low: 32, span: 8 };
    let offset_spot = Spot { at: 6, width: 2, low: 1, span: 8192 };
    proof {
        lemma_spans();
    }
    let flags = read_slot(pkt, flags_spot);
    let offset = read_slot(pkt, offset_spot) + ((cut + 7) / 8) as u64;
    if offset >= 8192 {
        return Err(Error::Malformed);
    }
    let earlier = write_slot(pkt, flags_spot, flags - flags % 2 + 1);
    let later = write_slot(pkt, offset_spot, offset);
    let none: Vec<u8> = Vec::new();
    let first = match into_fragment(
        splice(earlier.as_slice(), data + cut, pkt.len(), none.as_slice()),
    ) {
        Ok(p) => p,
        Err(e) => {
            return Err(e);
        },
    };
    let second = match into_fragment(splice(later.as_slice(), data, data + cut, none.as_slice())) {
        Ok(p) => p,
        Err(e) => {
            return Err(e);
        },
    };
    Ok((first, second))
}

/// Cuts a packet in two as `fragment` does.
pub fn fragment(protocol: u16, size: u16, pkt: &[u8]) -> (out: Result<(Vec<u8>, Vec<u8>), Error>)
    ensures
        match out {
            Ok(pieces) => fragments(protocol, size, pkt@) == Ok::<_, Fault>(
                (pieces.0@, pieces.1@),
            ),
            Err(e) => fragments(protocol, size, pkt@) == Err::<(Seq<u8>, Seq<u8>), _>(e@),
        },
{
    if protocol == LAYER_TCP {
        fragment_tcp(size, pkt)
    } else if protocol == LAYER_IP {
        fragment_ip(size, pkt)
    } else {
        Err(unknown_number(protocol))
    }
}

/// Writes the parameters of `fragment`, closed by a brace.
fn head_text(protocol: u16, size: u16, in_order: bool) -> (text: String)
    ensures
        text@ == fragment_head_text(protocol, size, in_order),
{
    let mut text = String::new();
    push_decimal(&mut text, protocol as u64);
    text.push(':');
    push_decimal(&mut text, size as u64);
    text.push(':');
    if in_order {
        text.append("True");
    } else {
        text.append("False");
    }
    text.push('}');
    text
}

/// Splits the packet in two at the named layer and hands the first piece to
/// one subtree, the second to the other.
///
/// `protocol` names the layer whose payload is cut, by its protocol number;
/// `fragment_size` is the number of payload bytes that go into the first
/// piece. With `in_order` unset, what comes of the second piece leaves first.
/// `_overlap` is kept for later use and has no effect.
#[derive(Debug)]
pub struct FragmentAction {
    pub protocol: u16,
    pub fragment_size: u16,
    pub in_order: bool,
    pub _overlap: u16,
    pub left_action: Box<GenevaAction>,
    pub right_action: Box<GenevaAction>,
}

impl View for FragmentAction {
    type V = ActionModel;

    open spec fn view(&self) -> ActionModel {
        ActionModel::Fragment {
            protocol: self.protocol,
            fragment_size: self.fragment_size,
            in_order: self.in_order,
            overlap: self._overlap,
            left: Box::new(self.left_action@),
            right: Box::new(self.right_action@),
        }
    }
}

impl Clone for FragmentAction {
    fn clone(&self) -> (c: FragmentAction)
        ensures
            c@ == self@,
    {
        FragmentAction {
            protocol: self.protocol,
            fragment_size: self.fragment_size,
            in_order: self.in_order,
            _overlap: self._overlap,
            left_action: Box::new(self.left_action.copy()),
            right_action: Box::new(self.right_action.copy()),
        }
    }
}

impl FragmentAction {
    /// A `fragment` action with the given parameters and subtrees.
    pub fn new(
        protocol: u16,
        fragment_size: u16,
        in_order: bool,
        _overlap: u16,
        left_action: GenevaAction,
        right_action: GenevaAction,
    ) -> (a: Result<FragmentAction, Error>)
        ensures
            a matches Ok(action) && action@ == (ActionModel::Fragment {
                protocol,
                fragment_size,
                in_order,
                overlap: _overlap,
                left: Box::new(left_action@),
                right: Box::new(right_action@),
            }),
    {
        Ok(
            FragmentAction {
                protocol,
                fragment_size,
                in_order,
                _overlap,
                left_action: Box::new(left_action),
                right_action: Box::new(right_action),
            },
        )
    }

    /// Cuts the packet in two and runs the left subtree on the first piece,
    /// the right subtree on the second. In order, what the left one made
    /// comes first; out of order, what the right one made.
    pub fn run(&self, pkt: Packet) -> (out: Result<Vec<Packet>, Error>)
        ensures
            ran(out, self@.run(pkt@)),
        decreases self,
    {
        let pieces = match fragment(self.protocol, self.fragment_size, pkt.as_slice()) {
            Ok(pieces) => pieces,
            Err(e) => {
                return Err(e);
            },
        };
        let first = match self.left_action.run(Packet::new(pieces.0)) {
            Ok(packets) => packets,
            Err(e) => {
                return Err(e);
            },
        };
        let second = match self.right_action.run(Packet::new(pieces.1)) {
            Ok(packets) => packets,
            Err(e) => {
                return Err(e);
            },
        };
        if self.in_order {
            Ok(join(first, second))
        } else {
            Ok(join(second, first))
        }
    }

    /// The action tree as a strategy writes it.
    pub fn to_string(&self) -> (text: String)
        ensures
            text@ == self@.text(),
        decreases self,
    {
        let left = self.left_action.to_string();
        let right = self.right_action.to_string();
        let mut text = String::from_str("fragment{");
        let head = head_text(self.protocol, self.fragment_size, self.in_order);
        text.append(head.as_str());
        push_pair(&mut text, &left, &right);
        text
    }
}

} // verus!
