//! Bytes as numbers, and pieces of byte strings.

use vstd::prelude::*;

verus! {

/// The number that a byte string writes, most significant byte first.
pub open spec fn be_value(bytes: Seq<u8>) -> nat
    decreases bytes.len(),
{
    if bytes.len() == 0 {
        0
    } else {
        be_value(bytes.drop_last()) * 256 + bytes.last() as nat
    }
}

/// The `width` low bytes of a number, most significant byte first.
pub open spec fn be_bytes(value: nat, width: nat) -> Seq<u8>
    decreases width,
{
    if width == 0 {
        Seq::empty()
    } else {
        be_bytes(value / 256, (width - 1) as nat).push((value % 256) as u8)
    }
}

/// The number of values that `width` bytes can hold.
pub open spec fn span_of(width: nat) -> nat
    decreases width,
{
    if width == 0 {
        1
    } else {
        256 * span_of((width - 1) as nat)
    }
}

/// A byte string writes a number below the span of its width.
pub(crate) proof fn lemma_be_value_bound(bytes: Seq<u8>)
    ensures
        be_value(bytes) < span_of(bytes.len()),
    decreases bytes.len(),
{
    if bytes.len() > 0 {
        lemma_be_value_bound(bytes.drop_last());
    }
}

/// The bytes of a number are as many as asked for, and write the number
/// wherever it is below the span of the width.
pub(crate) proof fn lemma_be_bytes(value: nat, width: nat)
    ensures
        be_bytes(value, width).len() == width,
        value < span_of(width) ==> be_value(be_bytes(value, width)) == value,
    decreases width,
{
    if width > 0 {
        lemma_be_bytes(value / 256, (width - 1) as nat);
        assert(be_bytes(value, width).drop_last() == be_bytes(value / 256, (width - 1) as nat));
    }
}

/// Reads up to four bytes at a position as one number.
pub(crate) fn read_be(bytes: &[u8], at: usize, width: usize) -> (value: u64)
    requires
        width <= 4,
        at + width <= bytes.len(),
    ensures
        value == be_value(bytes@.subrange(at as int, at + width)),
        value < span_of(width as nat),
        value <= 0xffff_ffff,
{
    let mut value: u64 = 0;
    let mut i: usize = 0;
    assert(span_of(0) == 1 && span_of(1) == 256 && span_of(2) == 65536 && span_of(3) == 16777216
        && span_of(4) == 4294967296) by {
        reveal_with_fuel(span_of, 5);
    }
    while i < width
        invariant
            i <= width <= 4,
            at + width <= bytes.len(),
            value == be_value(bytes@.subrange(at as int, at + i)),
            value < span_of(i as nat),
            span_of(0) == 1 && span_of(1) == 256 && span_of(2) == 65536 && span_of(3) == 16777216
                && span_of(4) == 4294967296,
        decreases width - i,
    {
        proof {
            let next = bytes@.subrange(at as int, at + i + 1);
            assert(next.drop_last() == bytes@.subrange(at as int, at + i));
            assert(next.last() == bytes@[at + i]);
            lemma_be_value_bound(next);
        }
        value = value * 256 + bytes[at + i] as u64;
        i += 1;
    }
    value
}

/// Appends the `width` low bytes of a number, most significant byte first.
pub(crate) fn push_be(out: &mut Vec<u8>, value: u64, width: usize)
    ensures
        final(out)@ == old(out)@ + be_bytes(value as nat, width as nat),
    decreases width,
{
    if width > 0 {
        push_be(out, value / 256, width - 1);
        out.push((value % 256) as u8);
    }
    assert(final(out)@ == old(out)@ + be_bytes(value as nat, width as nat));
}

/// A byte string with the stretch between two positions replaced.
pub open spec fn spliced(bytes: Seq<u8>, from: int, to: int, with: Seq<u8>) -> Seq<u8> {
    bytes.subrange(0, from) + with + bytes.subrange(to, bytes.len() as int)
}

/// Appends the bytes of a slice between two positions.
pub(crate) fn push_range(out: &mut Vec<u8>, bytes: &[u8], from: usize, to: usize)
    requires
        from <= to <= bytes.len(),
    ensures
        final(out)@ == old(out)@ + bytes@.subrange(from as int, to as int),
{
    let mut i: usize = from;
    assert(bytes@.subrange(from as int, from as int) == Seq::<u8>::empty());
    while i < to
        invariant
            from <= i <= to <= bytes.len(),
            out@ == old(out)@ + bytes@.subrange(from as int, i as int),
        decreases to - i,
    {
        out.push(bytes[i]);
        assert(bytes@.subrange(from as int, i + 1) == bytes@.subrange(from as int, i as int).push(
            bytes@[i as int],
        ));
        i += 1;
    }
}

/// Copies a byte string with the stretch between two positions replaced.
pub(crate) fn splice(bytes: &[u8], from: usize, to: usize, with: &[u8]) -> (out: Vec<u8>)
    requires
        from <= to <= bytes.len(),
    ensures
        out@ == spliced(bytes@, from as int, to as int, with@),
{
    let mut out: Vec<u8> = Vec::new();
    push_range(&mut out, bytes, 0, from);
    push_range(&mut out, with, 0, with.len());
    assert(with@.subrange(0, with@.len() as int) == with@);
    push_range(&mut out, bytes, to, bytes.len());
    out
}

/// `needle` stands somewhere in `hay`.
pub open spec fn holds(hay: Seq<u8>, needle: Seq<u8>) -> bool {
    exists|i: int| 0 <= i && i + needle.len() <= hay.len() && #[trigger] hay.subrange(
        i,
        i + needle.len(),
    ) == needle
}

/// Tests whether `needle` stands at position `at` of `hay`.
fn stands_at(hay: &[u8], at: usize, needle: &[u8]) -> (found: bool)
    requires
        at + needle.len() <= hay.len(),
    ensures
        found == (hay@.subrange(at as int, at + needle.len()) == needle@),
{
    let mut j: usize = 0;
    while j < needle.len()
        invariant
            j <= needle.len(),
            at + needle.len() <= hay.len(),
            hay@.subrange(at as int, at + j) == needle@.take(j as int),
        decreases needle.len() - j,
    {
        if hay[at + j] != needle[j] {
            assert(hay@.subrange(at as int, at + needle.len())[j as int] != needle@[j as int]);
            return false;
        }
        assert(hay@.subrange(at as int, at + j + 1) == hay@.subrange(at as int, at + j).push(
            hay@[at + j],
        ));
        assert(needle@.take(j + 1) == needle@.take(j as int).push(needle@[j as int]));
        j += 1;
    }
    assert(needle@.take(needle@.len() as int) == needle@);
    true
}

/// Tests whether `needle` stands somewhere between two positions of `hay`.
pub(crate) fn find(hay: &[u8], from: usize, to: usize, needle: &[u8]) -> (found: bool)
    requires
        from <= to <= hay.len(),
    ensures
        found == holds(hay@.subrange(from as int, to as int), needle@),
{
    let ghost part = hay@.subrange(from as int, to as int);
    let n = needle.len();
    if n == 0 {
        assert(part.subrange(0int, 0int + needle@.len()) == needle@);
        return true;
    }
    if n > to - from {
        return false;
    }
    let last = to - n;
    let mut i: usize = from;
    while i <= last
        invariant
            from <= i <= last + 1,
            last + n == to,
            n == needle.len(),
            n >= 1,
            to <= hay.len(),
            part == hay@.subrange(from as int, to as int),
            forall|k: int| 0 <= k < i - from ==> #[trigger] part.subrange(k, k + n) != needle@,
        decreases last + 1 - i,
    {
        let here = stands_at(hay, i, needle);
        assert(part.subrange(i - from, i - from + n) == hay@.subrange(i as int, i + n));
        if here {
            return true;
        }
        i += 1;
    }
    false
}

} // verus!
