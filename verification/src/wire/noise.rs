//! Values that the caller does not choose: a stream of numbers drawn from the
//! bytes of the packet at hand.

use vstd::prelude::*;

verus! {

/// The state that follows a state of the stream.
pub open spec fn noise_step(state: nat) -> nat {
    (state * 1103515245 + 12345) % 0x8000_0000
}

/// The state of the stream after it has taken in a byte string.
pub open spec fn noise_of(bytes: Seq<u8>) -> nat
    decreases bytes.len(),
{
    if bytes.len() == 0 {
        0x2545_f491
    } else {
        noise_step(noise_of(bytes.drop_last()) + bytes.last() as nat)
    }
}

/// The next `n` bytes that the stream gives from a state on.
pub open spec fn noise_bytes(state: nat, n: nat) -> Seq<u8>
    decreases n,
{
    if n == 0 {
        Seq::empty()
    } else {
        seq![(noise_step(state) / 0x100 % 0x100) as u8] + noise_bytes(
            noise_step(state),
            (n - 1) as nat,
        )
    }
}

/// Steps the stream once.
fn step(state: u64) -> (next: u64)
    requires
        state < 0x8000_0100,
    ensures
        next == noise_step(state as nat),
        next < 0x8000_0000,
{
    (state * 1103515245 + 12345) % 0x8000_0000
}

/// Feeds a byte string to the stream.
pub fn noise(bytes: &[u8]) -> (state: u64)
    ensures
        state == noise_of(bytes@),
        state < 0x8000_0000,
{
    let mut state: u64 = 0x2545_f491;
    let mut i: usize = 0;
    assert(bytes@.take(0) == Seq::<u8>::empty());
    while i < bytes.len()
        invariant
            i <= bytes.len(),
            state == noise_of(bytes@.take(i as int)),
            state < 0x8000_0000,
        decreases bytes.len() - i,
    {
        assert(bytes@.take(i + 1).drop_last() == bytes@.take(i as int));
        state = step(state + bytes[i] as u64);
        i += 1;
    }
    assert(bytes@.take(i as int) == bytes@);
    state
}

/// Draws `n` bytes from the stream.
pub(crate) fn draw(state: u64, n: usize) -> (out: Vec<u8>)
    requires
        state < 0x8000_0000,
    ensures
        out@ == noise_bytes(state as nat, n as nat),
{
    let mut out: Vec<u8> = Vec::new();
    let mut now: u64 = state;
    let mut i: usize = 0;
    while i < n
        invariant
            i <= n,
            now < 0x8000_0000,
            out@ + noise_bytes(now as nat, (n - i) as nat) == noise_bytes(state as nat, n as nat),
        decreases n - i,
    {
        let ghost before = out@;
        let ghost rest = noise_bytes(noise_step(now as nat), (n - i - 1) as nat);
        now = step(now);
        let b = (now / 0x100 % 0x100) as u8;
        out.push(b);
        assert(before + (seq![b] + rest) == before.push(b) + rest);
        i += 1;
    }
    assert(out@ + Seq::<u8>::empty() == out@);
    out
}

} // verus!
