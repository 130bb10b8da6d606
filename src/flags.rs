//! Mount attribute flags, as taken by the `mount_setattr` system call.
//!
//! A set flag describes something the sandboxed process may *not* do to a
//! mounted subtree.
use vstd::prelude::*;

verus! {

/// Mount read-only.
pub const RDONLY: u64 = 0x1;
/// Ignore suid and sgid bits.
pub const NOSUID: u64 = 0x2;
/// Disallow access to device special files.
pub const NODEV: u64 = 0x4;
/// Disallow program execution.
pub const NOEXEC: u64 = 0x8;
/// Mask of the access-time policy family.
pub const ATIME: u64 = 0x70;
/// Update access times relative to modification and change times.
pub const RELATIME: u64 = 0x0;
/// Do not update access times.
pub const NOATIME: u64 = 0x10;
/// Always update access times.
pub const STRICTATIME: u64 = 0x20;
/// Do not update directory access times.
pub const NODIRATIME: u64 = 0x80;
/// Idmap the mount to the user namespace given with the attributes.
pub const IDMAP: u64 = 0x100000;
/// Do not follow symbolic links.
pub const NOSYMFOLLOW: u64 = 0x200000;

/// The restrictions a subtree gets when it is first introduced.
pub const DEFAULT_RESTRICTIONS: u64 = 0x9;

/// A set of mount attribute flags.
#[derive(Debug, Clone, Copy, PartialEq, Eq, PartialOrd, Ord, Hash)]
pub struct MountAttrFlags {
    pub bits: u64,
}

/// The restrictions lifted by a grant of write and/or execute access.
pub open spec fn grant_mask(write: bool, execute: bool) -> u64 {
    (if write { RDONLY } else { 0u64 }) | (if execute { NOEXEC } else { 0u64 })
}

impl MountAttrFlags {
    /// Flags with exactly the given bits.
    pub fn from_bits_retain(bits: u64) -> (r: Self)
        ensures
            r.bits == bits,
    {
        MountAttrFlags { bits }
    }

    /// The raw bits.
    pub fn bits(&self) -> (r: u64)
        ensures
            r == self.bits,
    {
        self.bits
    }

    /// The flags a newly introduced subtree gets: read-only and no execution.
    pub fn defaults() -> (r: Self)
        ensures
            r.bits == DEFAULT_RESTRICTIONS,
            r.bits == RDONLY | NOEXEC,
    {
        assert(RDONLY | NOEXEC == 9u64) by (bit_vector);
        MountAttrFlags { bits: DEFAULT_RESTRICTIONS }
    }

    /// Whether every bit of `other` is set here.
    pub fn contains(&self, other: u64) -> (r: bool)
        ensures
            r == (self.bits & other == other),
    {
        self.bits & other == other
    }

    /// The union of both sets.
    pub fn union(&self, other: u64) -> (r: Self)
        ensures
            r.bits == self.bits | other,
    {
        MountAttrFlags { bits: self.bits | other }
    }

    /// Clear the bits of `other`.
    pub fn remove(&mut self, other: u64)
        ensures
            final(self).bits == old(self).bits & !other,
    {
        self.bits = self.bits & !other;
    }
}

} // verus!
