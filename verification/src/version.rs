//! The two supported versions of the algorithm, 0x10 and 0x13. The version
//! decides whether later passes overwrite blocks or combine with them.
use vstd::prelude::*;

verus! {

#[derive(Clone, Copy, Debug, PartialEq, Eq, Structural)]
pub enum Version {
    /// Version 0x10: every pass overwrites blocks.
    Version10,
    /// Version 0x13: passes after the first combine the new block with the
    /// old one by exclusive or.
    Version13,
}

/// The numeric value of a version.
pub open spec fn version_code(v: Version) -> u32 {
    match v {
        Version::Version10 => 0x10u32,
        Version::Version13 => 0x13u32,
    }
}

impl Version {
    /// The numeric value of the version (0x10 or 0x13).
    pub fn as_u32(&self) -> (r: u32)
        ensures
            r == version_code(*self),
    {
        match *self {
            Version::Version10 => 0x10,
            Version::Version13 => 0x13,
        }
    }
}

impl Default for Version {
    /// The default version is the newest, 0x13.
    fn default() -> (r: Version)
        ensures
            r == Version::Version13,
    {
        Version::Version13
    }
}

} // verus!
