//! The Internet checksum of the IPv4 header and of the TCP segment.

use crate::wire::bytes::{be_bytes, push_be, push_range, spliced};
use crate::wire::{has_ip, has_tcp, ip_header, ip_header_len, same_from, tcp_header};
use vstd::prelude::*;

verus! {

/// The sum of the 16-bit words of a byte string, most significant byte
/// first; a last odd byte counts as the high byte of a word.
pub open spec fn word_sum(bytes: Seq<u8>) -> nat
    decreases bytes.len(),
{
    if bytes.len() == 0 {
        0
    } else if bytes.len() == 1 {
        bytes[0] as nat * 256
    } else {
        bytes[0] as nat * 256 + bytes[1] as nat + word_sum(bytes.skip(2))
    }
}

/// A sum with the carries above sixteen bits added back in until none is
/// left.
pub open spec fn folded(sum: nat) -> nat
    decreases sum,
{
    if sum < 0x1_0000 {
        sum
    } else {
        folded(sum / 0x1_0000 + sum % 0x1_0000)
    }
}

/// The checksum for a sum of words: the complement of the folded sum.
pub open spec fn checksum_of(sum: nat) -> nat {
    (0xffff - folded(sum)) as nat
}

/// A byte string with the two bytes at a position set to zero.
pub open spec fn zeroed(bytes: Seq<u8>, at: int) -> Seq<u8> {
    bytes.update(at, 0u8).update(at + 1, 0u8)
}

/// The checksum that belongs in the IPv4 header of a packet.
pub open spec fn ip_checksum(pkt: Seq<u8>) -> nat {
    checksum_of(word_sum(zeroed(pkt.subrange(0, ip_header_len(pkt)), 10)))
}

/// The packet with the checksum of its IPv4 header set right; the packet
/// itself where it has no such header.
pub open spec fn with_ip_checksum(pkt: Seq<u8>) -> Seq<u8> {
    if has_ip(pkt) {
        spliced(pkt, 10, 12, be_bytes(ip_checksum(pkt), 2))
    } else {
        pkt
    }
}

/// The checksum that belongs in the TCP header of a packet: over the
/// addresses, the protocol number, the length of the segment, and the
/// segment.
pub open spec fn tcp_checksum(pkt: Seq<u8>) -> nat {
    let segment = pkt.subrange(ip_header_len(pkt), pkt.len() as int);
    checksum_of(word_sum(pkt.subrange(12, 20)) + 6 + segment.len() + word_sum(zeroed(segment, 16)))
}

/// The packet with the checksum of its TCP header set right; the packet
/// itself where it has no such header.
pub open spec fn with_tcp_checksum(pkt: Seq<u8>) -> Seq<u8> {
    if has_tcp(pkt) {
        spliced(
            pkt,
            ip_header_len(pkt) + 16,
            ip_header_len(pkt) + 18,
            be_bytes(tcp_checksum(pkt), 2),
        )
    } else {
        pkt
    }
}

/// The packet with both checksums set right, as far as it has the headers.
pub open spec fn sealed(pkt: Seq<u8>) -> Seq<u8> {
    with_tcp_checksum(with_ip_checksum(pkt))
}

/// A sum of words checks out: folded, it is all ones. This is what the
/// receiver of a header finds when the checksum in it is right.
pub open spec fn checks_out(sum: nat) -> bool {
    folded(sum) == 0xffff
}

/// Folding keeps a sum below 65536, keeps what it is modulo 65535, and keeps
/// it from zero.
proof fn lemma_folded(sum: nat)
    ensures
        folded(sum) < 0x1_0000,
        folded(sum) % 0xffff == sum % 0xffff,
        sum > 0 ==> folded(sum) > 0,
    decreases sum,
{
    if sum >= 0x1_0000 {
        let q = sum / 0x1_0000;
        let r = sum % 0x1_0000;
        lemma_folded(q + r);
        assert(sum == 0xffff * q + (q + r));
        vstd::arithmetic::div_mod::lemma_mod_multiples_vanish(q as int, (q + r) as int, 0xffff);
    }
}

/// A sum with its own checksum added checks out.
proof fn lemma_checksum_completes(sum: nat)
    ensures
        checks_out(sum + checksum_of(sum)),
{
    lemma_folded(sum);
    let f = folded(sum);
    let whole = sum + (0xffff - f) as nat;
    lemma_folded(whole);
    // sum and f leave the same rest, so the whole is a multiple of 65535
    let k = sum / 0xffff;
    let rest = sum % 0xffff;
    assert(sum == 0xffff * k + rest) by {
        vstd::arithmetic::div_mod::lemma_fundamental_div_mod(sum as int, 0xffff);
    }
    assert(f % 0xffff == rest);
    if f == 0xffff {
        assert(rest == 0);
        assert(whole == 0xffff * k + 0);
        vstd::arithmetic::div_mod::lemma_mod_multiples_vanish(k as int, 0, 0xffff);
    } else {
        assert(f == rest);
        assert(whole == 0xffff * (k + 1) + 0);
        vstd::arithmetic::div_mod::lemma_mod_multiples_vanish((k + 1) as int, 0, 0xffff);
    }
    assert(whole % 0xffff == 0);
    assert(whole > 0);
    assert(folded(whole) % 0xffff == 0);
}

/// Setting the two bytes of one word changes the sum of words by what the
/// word changes.
proof fn lemma_word_sum_update(bytes: Seq<u8>, at: int, hi: u8, lo: u8)
    requires
        0 <= at,
        at % 2 == 0,
        at + 2 <= bytes.len(),
    ensures
        word_sum(bytes.update(at, hi).update(at + 1, lo)) + bytes[at] as nat * 256 + bytes[at
            + 1] as nat == word_sum(bytes) + hi as nat * 256 + lo as nat,
    decreases bytes.len(),
{
    let changed = bytes.update(at, hi).update(at + 1, lo);
    if at == 0 {
        assert(changed.skip(2) == bytes.skip(2));
    } else {
        lemma_word_sum_update(bytes.skip(2), at - 2, hi, lo);
        assert(changed.skip(2) == bytes.skip(2).update(at - 2, hi).update(at - 1, lo));
    }
}

/// The two bytes of a checksum.
proof fn lemma_checksum_bytes(checksum: nat)
    requires
        checksum <= 0xffff,
    ensures
        be_bytes(checksum, 2) == seq![(checksum / 256) as u8, (checksum % 256) as u8],
{
    reveal_with_fuel(be_bytes, 3);
    assert(be_bytes(checksum, 2) =~= seq![(checksum / 256) as u8, (checksum % 256) as u8]);
}

/// The checksum that is set into the IPv4 header is right: the header with
/// the checksum in it checks out.
pub proof fn law_ip_checksum_checks_out(pkt: Seq<u8>)
    requires
        has_ip(pkt),
    ensures
        checks_out(word_sum(with_ip_checksum(pkt).subrange(0, ip_header_len(pkt)))),
{
    let n = ip_header_len(pkt);
    let header = pkt.subrange(0, n);
    let blank = zeroed(header, 10);
    let checksum = ip_checksum(pkt);
    lemma_folded(word_sum(blank));
    lemma_checksum_bytes(checksum);
    let hi = (checksum / 256) as u8;
    let lo = (checksum % 256) as u8;
    assert(with_ip_checksum(pkt).subrange(0, n) == blank.update(10, hi).update(11, lo));
    lemma_word_sum_update(blank, 10, hi, lo);
    lemma_checksum_completes(word_sum(blank));
}

/// The checksum that is set into the TCP header is right: the addresses, the
/// protocol number, the length of the segment and the segment with the
/// checksum in it check out together.
pub proof fn law_tcp_checksum_checks_out(pkt: Seq<u8>)
    requires
        has_tcp(pkt),
    ensures
        ({
            let done = with_tcp_checksum(pkt);
            let segment = done.subrange(ip_header_len(pkt), done.len() as int);
            checks_out(word_sum(done.subrange(12, 20)) + 6 + segment.len() + word_sum(segment))
        }),
{
    let at = ip_header_len(pkt);
    let segment = pkt.subrange(at, pkt.len() as int);
    let blank = zeroed(segment, 16);
    let around = word_sum(pkt.subrange(12, 20)) + 6 + segment.len();
    let checksum = tcp_checksum(pkt);
    lemma_folded(around + word_sum(blank));
    lemma_checksum_bytes(checksum);
    let hi = (checksum / 256) as u8;
    let lo = (checksum % 256) as u8;
    let done = with_tcp_checksum(pkt);
    assert(done.len() == pkt.len());
    assert(done.subrange(at, done.len() as int) == blank.update(16, hi).update(17, lo));
    assert(done.subrange(12, 20) == pkt.subrange(12, 20));
    lemma_word_sum_update(blank, 16, hi, lo);
    lemma_checksum_completes(around + word_sum(blank));
}

/// Setting the checksums changes nothing behind the headers, nor the length
/// of the packet.
pub(crate) proof fn lemma_sealed_keeps(pkt: Seq<u8>, from: int)
    requires
        pkt.len() > 0,
        12 <= from,
        ip_header_len(pkt) + 18 <= from,
    ensures
        same_from(with_ip_checksum(pkt), pkt, from),
        same_from(sealed(pkt), pkt, from),
{
    let first = with_ip_checksum(pkt);
    if has_ip(pkt) {
        lemma_folded(word_sum(zeroed(pkt.subrange(0, ip_header_len(pkt)), 10)));
        lemma_checksum_bytes(ip_checksum(pkt));
    }
    assert(same_from(first, pkt, from));
    assert(first[0] == pkt[0]);
    if has_tcp(first) {
        let segment = first.subrange(ip_header_len(first), first.len() as int);
        lemma_folded(
            word_sum(first.subrange(12, 20)) + 6 + segment.len() + word_sum(zeroed(segment, 16)),
        );
        lemma_checksum_bytes(tcp_checksum(first));
    }
}

/// Adds up the 16-bit words of a byte string.
fn sum_words(bytes: &[u8]) -> (sum: u128)
    ensures
        sum == word_sum(bytes@),
        sum <= 0x1_0000 * bytes.len(),
{
    let len = bytes.len();
    let mut sum: u128 = 0;
    let mut i: usize = 0;
    assert(bytes@.skip(0) == bytes@);
    while len - i >= 2
        invariant
            i <= len,
            len == bytes.len(),
            sum + word_sum(bytes@.skip(i as int)) == word_sum(bytes@),
            sum <= 0x1_0000 * i,
        decreases len - i,
    {
        assert(bytes@.skip(i as int).skip(2) == bytes@.skip(i + 2));
        sum = sum + (bytes[i] as u128 * 256 + bytes[i + 1] as u128);
        i += 2;
    }
    if i < len {
        sum = sum + bytes[i] as u128 * 256;
    }
    sum
}

/// Turns a sum of words into a checksum.
fn finish(sum: u128) -> (checksum: u64)
    ensures
        checksum == checksum_of(sum as nat),
        checksum <= 0xffff,
{
    let mut rest: u128 = sum;
    while rest >= 0x1_0000
        invariant
            folded(rest as nat) == folded(sum as nat),
        decreases rest,
    {
        rest = rest / 0x1_0000 + rest % 0x1_0000;
    }
    (0xffff - rest) as u64
}

/// Sets the checksum of the IPv4 header right.
pub fn seal_ip(pkt: Vec<u8>) -> (out: Vec<u8>)
    ensures
        out@ == with_ip_checksum(pkt@),
{
    let header = match ip_header(pkt.as_slice()) {
        Some(n) => n,
        None => {
            return pkt;
        },
    };
    let mut copy: Vec<u8> = Vec::new();
    push_range(&mut copy, pkt.as_slice(), 0, header);
    copy.set(10, 0);
    copy.set(11, 0);
    let checksum = finish(sum_words(copy.as_slice()));
    let mut out: Vec<u8> = Vec::new();
    push_range(&mut out, pkt.as_slice(), 0, 10);
    push_be(&mut out, checksum, 2);
    push_range(&mut out, pkt.as_slice(), 12, pkt.len());
    out
}

/// Sets the checksum of the TCP header right.
pub fn seal_tcp(pkt: Vec<u8>) -> (out: Vec<u8>)
    ensures
        out@ == with_tcp_checksum(pkt@),
{
    let (at, _) = match tcp_header(pkt.as_slice()) {
        Some(found) => found,
        None => {
            return pkt;
        },
    };
    let mut addresses: Vec<u8> = Vec::new();
    push_range(&mut addresses, pkt.as_slice(), 12, 20);
    let mut segment: Vec<u8> = Vec::new();
    push_range(&mut segment, pkt.as_slice(), at, pkt.len());
    segment.set(16, 0);
    segment.set(17, 0);
    let length = segment.len() as u128;
    let checksum = finish(
        sum_words(addresses.as_slice()) + 6 + length + sum_words(segment.as_slice()),
    );
    let mut out: Vec<u8> = Vec::new();
    push_range(&mut out, pkt.as_slice(), 0, at + 16);
    push_be(&mut out, checksum, 2);
    push_range(&mut out, pkt.as_slice(), at + 18, pkt.len());
    out
}

/// Sets both checksums right, as far as the packet has the headers.
pub fn seal(pkt: Vec<u8>) -> (out: Vec<u8>)
    ensures
        out@ == sealed(pkt@),
{
    seal_tcp(seal_ip(pkt))
}

} // verus!
