//! Packet-number-space primitives: a space tag, a packet number carrying its
//! owning space, an inclusive same-space range, and a monotonic timestamp.
//!
//! Packet numbers from different spaces are never comparable: every ledger
//! operation that orders or looks up packet numbers demands, in its contract,
//! that the argument belongs to the ledger's space.

use vstd::prelude::*;

verus! {

/// One of the three independent monotonic numbering domains used during a
/// connection's lifetime.
#[derive(Clone, Copy, Debug, PartialEq, Eq, Structural, Hash)]
pub enum PacketNumberSpace {
    Initial,
    Handshake,
    ApplicationData,
}

impl PacketNumberSpace {
    /// Tags an integer value as a packet number of this space.
    pub fn new_packet_number(self, value: u64) -> (pn: PacketNumber)
        ensures
            pn.space == self,
            pn.value == value,
    {
        PacketNumber { space: self, value }
    }
}

/// An unsigned packet number tagged by its owning space. Two packet numbers
/// are ordered by `value` only when their spaces agree; mixing spaces is a
/// caller defect that the ledger contracts reject.
#[derive(Clone, Copy, Debug, PartialEq, Eq, Structural, Hash)]
pub struct PacketNumber {
    pub space: PacketNumberSpace,
    pub value: u64,
}

/// An inclusive `[start, end]` pair of packet numbers from one space with
/// `start <= end`.
#[derive(Clone, Copy, Debug, PartialEq, Eq, Structural)]
pub struct PacketNumberRange {
    pub start: PacketNumber,
    pub end: PacketNumber,
}

impl PacketNumberRange {
    /// Both bounds come from the same space and `start <= end`.
    pub open spec fn wf(self) -> bool {
        &&& self.start.space == self.end.space
        &&& self.start.value <= self.end.value
    }

    pub open spec fn spec_start(self) -> PacketNumber {
        self.start
    }

    pub open spec fn spec_end(self) -> PacketNumber {
        self.end
    }

    /// The space both bounds belong to.
    pub open spec fn spec_space(self) -> PacketNumberSpace {
        self.start.space
    }

    /// Whether `pn` lies inside the range; only packet numbers of the range's
    /// own space are ever contained.
    pub open spec fn spec_contains(self, pn: PacketNumber) -> bool {
        &&& pn.space == self.start.space
        &&& self.start.value <= pn.value <= self.end.value
    }

    pub fn new(start: PacketNumber, end: PacketNumber) -> (r: PacketNumberRange)
        requires
            start.space == end.space,
            start.value <= end.value,
        ensures
            r.wf(),
            r.spec_start() == start,
            r.spec_end() == end,
    {
        PacketNumberRange { start, end }
    }

    pub fn start(&self) -> (r: PacketNumber)
        ensures
            r == self.spec_start(),
    {
        self.start
    }

    pub fn end(&self) -> (r: PacketNumber)
        ensures
            r == self.spec_end(),
    {
        self.end
    }
}

/// A reading of a monotonic send clock. The clock itself lives outside this
/// library; here a timestamp is an opaque, strictly ordered tick count that is
/// stored and handed back unchanged.
#[derive(Clone, Copy, Debug, PartialEq, Eq, Structural, Hash)]
pub struct Timestamp {
    pub ticks: u64,
}

impl Timestamp {
    pub fn new(ticks: u64) -> (t: Timestamp)
        ensures
            t.ticks == ticks,
    {
        Timestamp { ticks }
    }
}

} // verus!
