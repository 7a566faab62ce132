use vstd::prelude::*;

verus! {

/// A sequence number assigned by the ordering protocol.
///
/// Sequence numbers are 32-bit and wrap around after `u32::MAX`.
#[derive(Clone, Copy, Debug, PartialEq, Eq, Structural, PartialOrd, Ord, Hash)]
pub struct SeqNo {
    pub value: u32,
}

/// The successor of a raw sequence number, wrapping after `u32::MAX`.
pub open spec fn next_raw(v: u32) -> u32 {
    if v == u32::MAX {
        0
    } else {
        (v + 1) as u32
    }
}

/// The predecessor of a raw sequence number, wrapping below zero to `u32::MAX`.
pub open spec fn prev_raw(v: u32) -> u32 {
    if v == 0 {
        u32::MAX
    } else {
        (v - 1) as u32
    }
}

impl SeqNo {
    /// The first sequence number the ordering protocol assigns.
    pub fn zero() -> (s: SeqNo)
        ensures
            s.value == 0,
    {
        SeqNo { value: 0 }
    }

    /// The sequence number one.
    pub fn one() -> (s: SeqNo)
        ensures
            s.value == 1,
    {
        SeqNo { value: 1 }
    }

    /// Builds a sequence number from its raw value.
    pub fn from(value: u32) -> (s: SeqNo)
        ensures
            s.value == value,
    {
        SeqNo { value }
    }

    /// The raw value of this sequence number.
    pub fn into_u32(self) -> (v: u32)
        ensures
            v == self.value,
    {
        self.value
    }

    /// The sequence number that follows this one (wrapping after `u32::MAX`).
    pub fn next(self) -> (n: SeqNo)
        ensures
            n.value == next_raw(self.value),
    {
        if self.value == u32::MAX {
            SeqNo { value: 0 }
        } else {
            SeqNo { value: self.value + 1 }
        }
    }

    /// The sequence number that comes before this one (wrapping below zero).
    pub fn prev(self) -> (p: SeqNo)
        ensures
            p.value == prev_raw(self.value),
            next_raw(p.value) == self.value,
    {
        if self.value == 0 {
            SeqNo { value: u32::MAX }
        } else {
            SeqNo { value: self.value - 1 }
        }
    }

    /// Compares two sequence numbers by raw value: `true` when `self` comes strictly before
    /// `other`.
    pub fn precedes(self, other: SeqNo) -> (b: bool)
        ensures
            b == (self.value < other.value),
    {
        self.value < other.value
    }
}

} // verus!
