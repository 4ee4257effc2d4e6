//! The byte buffer that every rule reads and every action rewrites.

use vstd::prelude::*;

verus! {

/// One network packet: the bytes of an IPv4 datagram as they were observed.
///
/// A packet owns its bytes. Its view is the byte sequence, and every contract
/// in this crate speaks of packets through that view.
#[derive(Debug)]
pub struct Packet {
    data: Vec<u8>,
}

impl View for Packet {
    type V = Seq<u8>;

    closed spec fn view(&self) -> Seq<u8> {
        self.data@
    }
}

impl DeepView for Packet {
    type V = Seq<u8>;

    open spec fn deep_view(&self) -> Seq<u8> {
        self@
    }
}

impl Packet {
    /// Wraps raw bytes as a packet.
    pub fn new(data: Vec<u8>) -> (pkt: Packet)
        ensures
            pkt@ == data@,
    {
        Packet { data }
    }

    /// The bytes of the packet.
    pub fn as_slice(&self) -> (bytes: &[u8])
        ensures
            bytes@ == self@,
    {
        self.data.as_slice()
    }

    /// The number of bytes in the packet.
    pub fn len(&self) -> (n: usize)
        ensures
            n == self@.len(),
    {
        self.data.len()
    }

    /// Sets the byte at a position, where the packet has one there. Says
    /// whether it did.
    pub fn set(&mut self, at: usize, byte: u8) -> (done: bool)
        ensures
            done == (at < old(self)@.len()),
            final(self)@ == if done {
                old(self)@.update(at as int, byte)
            } else {
                old(self)@
            },
    {
        if at < self.data.len() {
            self.data.set(at, byte);
            true
        } else {
            false
        }
    }

    /// Gives the bytes back, consuming the packet.
    pub fn into_bytes(self) -> (data: Vec<u8>)
        ensures
            data@ == self@,
    {
        self.data
    }
}

impl Clone for Packet {
    /// An independent copy with the same bytes.
    fn clone(&self) -> (copy: Packet)
        ensures
            copy@ == self@,
    {
        let mut data: Vec<u8> = Vec::new();
        let mut i: usize = 0;
        while i < self.data.len()
            invariant
                i <= self.data.len(),
                data@ == self.data@.take(i as int),
            decreases self.data.len() - i,
        {
            data.push(self.data[i]);
            i += 1;
        }
        assert(self.data@ == self.data@.take(i as int));
        Packet { data }
    }
}

impl PartialEq for Packet {
    /// Two packets are equal when they hold the same bytes.
    fn eq(&self, other: &Packet) -> (same: bool) {
        if self.data.len() != other.data.len() {
            return false;
        }
        let mut i: usize = 0;
        while i < self.data.len()
            invariant
                i <= self.data.len(),
                self.data.len() == other.data.len(),
                self.data@.take(i as int) == other.data@.take(i as int),
            decreases self.data.len() - i,
        {
            if self.data[i] != other.data[i] {
                return false;
            }
            assert(self.data@.take(i + 1) == self.data@.take(i as int).push(self.data@[i as int]));
            assert(other.data@.take(i + 1) == other.data@.take(i as int).push(other.data@[i as int]));
            i += 1;
        }
        assert(self.data@ == self.data@.take(i as int));
        assert(other.data@ == other.data@.take(i as int));
        true
    }
}

impl vstd::std_specs::cmp::PartialEqSpecImpl for Packet {
    open spec fn obeys_eq_spec() -> bool {
        true
    }

    open spec fn eq_spec(&self, other: &Packet) -> bool {
        self@ == other@
    }
}

} // verus!
