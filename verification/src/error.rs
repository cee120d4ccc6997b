//! What can go wrong: a queue that is configured badly, and a guest that
//! publishes rings or chains the device cannot follow.

use vstd::prelude::*;

verus! {

/// A queue configuration from which no layout can be derived.
#[derive(Clone, Copy, Debug, PartialEq, Eq, Structural)]
pub enum ConfigError {
    /// The queue size is not a power of two.
    QueueSizeNotPowerOfTwo,
    /// The alignment is zero, or so large that the queue does not fit the
    /// host's address space.
    AlignmentOutOfRange,
}

/// A ring or descriptor chain that breaks the protocol. The chain at hand is
/// given up; the device goes on.
#[derive(Clone, Copy, Debug, PartialEq, Eq, Structural)]
pub enum GuestProtocolError {
    /// The queue has no view bound for the ring that is needed.
    QueueNotBound,
    /// A descriptor index is not below the queue size.
    DescriptorOutOfRange,
    /// A ring, descriptor or header lies in guest memory that is not mapped.
    UnmappedAddress,
    /// The first descriptor is shorter than a request header.
    TruncatedHeader,
    /// The chain has no status descriptor, or does not end within as many
    /// descriptors as the queue holds.
    MalformedChain,
    /// The data segments of the chain add up to more than a used-ring entry
    /// can report.
    RequestTooLarge,
}

} // verus!
