//! Rights: the bitset capability attached to every handle.
//!
//! A handle's rights are fixed when the handle is made and are only ever
//! checked with a subset test or narrowed by intersection, never widened.

use vstd::prelude::*;

verus! {

/// Right to duplicate a handle.
pub const RIGHT_DUPLICATE: u32 = 1u32 << 0;
/// Right to transfer a handle through a channel.
pub const RIGHT_TRANSFER: u32 = 1u32 << 1;
/// Right to read from the object.
pub const RIGHT_READ: u32 = 1u32 << 2;
/// Right to write to the object.
pub const RIGHT_WRITE: u32 = 1u32 << 3;
/// Right to execute the object's contents.
pub const RIGHT_EXECUTE: u32 = 1u32 << 4;
/// Right to map the object into an address space.
pub const RIGHT_MAP: u32 = 1u32 << 5;
/// Right to read object properties.
pub const RIGHT_GET_PROPERTY: u32 = 1u32 << 6;
/// Right to set object properties.
pub const RIGHT_SET_PROPERTY: u32 = 1u32 << 7;
/// Right to enumerate children.
pub const RIGHT_ENUMERATE: u32 = 1u32 << 8;
/// Right to destroy the object.
pub const RIGHT_DESTROY: u32 = 1u32 << 9;
/// Right to set the job policy.
pub const RIGHT_SET_POLICY: u32 = 1u32 << 10;
/// Right to read the job policy.
pub const RIGHT_GET_POLICY: u32 = 1u32 << 11;
/// Right to assert signals on the object.
pub const RIGHT_SIGNAL: u32 = 1u32 << 12;
/// Right to assert signals on the object's peer.
pub const RIGHT_SIGNAL_PEER: u32 = 1u32 << 13;
/// Right to wait on the object's signals.
pub const RIGHT_WAIT: u32 = 1u32 << 14;
/// Right to inspect the object.
pub const RIGHT_INSPECT: u32 = 1u32 << 15;
/// Right to manage a job.
pub const RIGHT_MANAGE_JOB: u32 = 1u32 << 16;
/// Right to manage a process.
pub const RIGHT_MANAGE_PROCESS: u32 = 1u32 << 17;
/// Right to manage a thread.
pub const RIGHT_MANAGE_THREAD: u32 = 1u32 << 18;
/// Right to apply a profile.
pub const RIGHT_APPLY_PROFILE: u32 = 1u32 << 19;

/// The rights shared by most freshly made handles.
pub const RIGHTS_BASIC: u32 = RIGHT_TRANSFER | RIGHT_DUPLICATE | RIGHT_WAIT | RIGHT_INSPECT;
/// Byte-level input/output rights.
pub const RIGHTS_IO: u32 = RIGHT_READ | RIGHT_WRITE;
/// Property access rights.
pub const RIGHTS_PROPERTY: u32 = RIGHT_GET_PROPERTY | RIGHT_SET_PROPERTY;
/// Policy access rights.
pub const RIGHTS_POLICY: u32 = RIGHT_GET_POLICY | RIGHT_SET_POLICY;
/// The default rights of a handle to a fresh channel endpoint: basic rights
/// without duplication, plus input/output and peer signalling.
pub const RIGHTS_DEFAULT_CHANNEL: u32 = (RIGHTS_BASIC & !RIGHT_DUPLICATE) | RIGHTS_IO
    | RIGHT_SIGNAL | RIGHT_SIGNAL_PEER;
/// The default rights of a handle to a fresh process.
pub const RIGHTS_DEFAULT_PROCESS: u32 = RIGHTS_BASIC | RIGHTS_IO | RIGHTS_PROPERTY
    | RIGHT_ENUMERATE | RIGHT_DESTROY | RIGHT_SIGNAL | RIGHT_MANAGE_PROCESS
    | RIGHT_MANAGE_THREAD;
/// The default rights of a handle to a fresh job.
pub const RIGHTS_DEFAULT_JOB: u32 = RIGHTS_BASIC | RIGHTS_IO | RIGHTS_PROPERTY | RIGHTS_POLICY
    | RIGHT_ENUMERATE | RIGHT_DESTROY | RIGHT_SIGNAL | RIGHT_MANAGE_JOB | RIGHT_MANAGE_PROCESS
    | RIGHT_MANAGE_THREAD;

/// A bitset of rights. Containment is monotone: `contains` is a subset test
/// on the underlying bits.
#[derive(Debug, Clone, Copy, PartialEq, Eq, Structural)]
pub struct Rights {
    /// The raw bits, one per right.
    pub bits: u32,
}

impl Rights {
    /// Whether every right of `other` is also held by `self`.
    pub open spec fn spec_contains(self, other: Rights) -> bool {
        self.bits & other.bits == other.bits
    }

    /// The rights bitset with the given raw bits.
    pub fn from_bits(bits: u32) -> (r: Rights)
        ensures
            r.bits == bits,
    {
        Rights { bits }
    }

    /// The empty rights set.
    pub fn empty() -> (r: Rights)
        ensures
            r.bits == 0,
    {
        Rights { bits: 0 }
    }

    /// Whether every right of `other` is also held by `self`.
    pub fn contains(&self, other: Rights) -> (r: bool)
        ensures
            r == self.spec_contains(other),
    {
        self.bits & other.bits == other.bits
    }

    /// The union of two rights sets.
    pub fn union(self, other: Rights) -> (r: Rights)
        ensures
            r.bits == self.bits | other.bits,
    {
        Rights { bits: self.bits | other.bits }
    }

    /// The intersection of two rights sets; this is the only way rights are
    /// ever narrowed.
    pub fn intersect(self, other: Rights) -> (r: Rights)
        ensures
            r.bits == self.bits & other.bits,
    {
        Rights { bits: self.bits & other.bits }
    }

    /// The basic rights of most fresh handles.
    pub fn basic() -> (r: Rights)
        ensures
            r.bits == RIGHTS_BASIC,
    {
        Rights { bits: RIGHTS_BASIC }
    }

    /// The default rights of a handle to a fresh channel endpoint.
    pub fn default_channel() -> (r: Rights)
        ensures
            r.bits == RIGHTS_DEFAULT_CHANNEL,
    {
        Rights { bits: RIGHTS_DEFAULT_CHANNEL }
    }

    /// The default rights of a handle to a fresh process.
    pub fn default_process() -> (r: Rights)
        ensures
            r.bits == RIGHTS_DEFAULT_PROCESS,
    {
        Rights { bits: RIGHTS_DEFAULT_PROCESS }
    }

    /// The default rights of a handle to a fresh job.
    pub fn default_job() -> (r: Rights)
        ensures
            r.bits == RIGHTS_DEFAULT_JOB,
    {
        Rights { bits: RIGHTS_DEFAULT_JOB }
    }

    /// The single job-management right.
    pub fn manage_job() -> (r: Rights)
        ensures
            r.bits == RIGHT_MANAGE_JOB,
    {
        Rights { bits: RIGHT_MANAGE_JOB }
    }

    /// The single read right.
    pub fn read() -> (r: Rights)
        ensures
            r.bits == RIGHT_READ,
    {
        Rights { bits: RIGHT_READ }
    }

    /// The single write right.
    pub fn write() -> (r: Rights)
        ensures
            r.bits == RIGHT_WRITE,
    {
        Rights { bits: RIGHT_WRITE }
    }

    /// The single transfer right.
    pub fn transfer() -> (r: Rights)
        ensures
            r.bits == RIGHT_TRANSFER,
    {
        Rights { bits: RIGHT_TRANSFER }
    }
}

/// Rights are only ever narrowed: an intersection is contained in both of
/// its operands, so no derived handle can hold a right its source lacked.
pub proof fn lemma_intersect_never_widens(a: Rights, b: Rights)
    ensures
        a.spec_contains(Rights { bits: a.bits & b.bits }),
        b.spec_contains(Rights { bits: a.bits & b.bits }),
{
    let x: u32 = a.bits;
    let y: u32 = b.bits;
    assert(x & (x & y) == x & y) by (bit_vector);
    assert(y & (x & y) == x & y) by (bit_vector);
}

} // verus!
