//! Caller-supplied parameters of one hashing operation. A configuration is
//! immutable once built and validated once, by `Context::new`.
use vstd::prelude::*;

use crate::thread_mode::ThreadMode;
use crate::variant::Variant;
use crate::version::Version;

verus! {

#[derive(Clone, Copy, Debug)]
pub struct Config<'a> {
    /// Optional associated data, mixed into the initial digest.
    pub ad: &'a [u8],
    /// Length of the output tag in bytes, at least 4.
    pub hash_length: u32,
    /// Degree of parallelism: the number of lanes, at least 1.
    pub lanes: u32,
    /// Memory cost in kibibytes; at least 8 per lane.
    pub mem_cost: u32,
    /// Optional keying material, mixed into the initial digest.
    pub secret: &'a [u8],
    /// How the lanes of one slice are dispatched; never affects the tag.
    pub thread_mode: ThreadMode,
    /// Number of passes over the whole memory, at least 1.
    pub time_cost: u32,
    /// Which addressing discipline the fill uses.
    pub variant: Variant,
    /// Algorithm version, 0x10 or 0x13.
    pub version: Version,
}

impl<'a> Config<'a> {
    /// Build a configuration from a host-supplied JSON record. Text
    /// handling is host-side glue outside this engine's scope; the engine
    /// answers with the documented fallback configuration, and a host that
    /// recognises fields fills them in itself.
    pub fn from_json(config_json: String) -> (r: Config<'a>)
        ensures
            r.ad@ == Seq::<u8>::empty(),
            r.secret@ == Seq::<u8>::empty(),
            r.hash_length == 32u32,
            r.lanes == 1u32,
            r.mem_cost == 4096u32,
            r.thread_mode == ThreadMode::Sequential,
            r.time_cost == 3u32,
            r.variant == Variant::Argon2i,
            r.version == Version::Version13,
    {
        Config::default()
    }
}

impl<'a> Default for Config<'a> {
    /// The documented fallback configuration.
    fn default() -> (r: Config<'a>)
        ensures
            r.ad@ == Seq::<u8>::empty(),
            r.secret@ == Seq::<u8>::empty(),
            r.hash_length == 32u32,
            r.lanes == 1u32,
            r.mem_cost == 4096u32,
            r.thread_mode == ThreadMode::Sequential,
            r.time_cost == 3u32,
            r.variant == Variant::Argon2i,
            r.version == Version::Version13,
    {
        let empty: &'a [u8] = &[];
        Config {
            ad: empty,
            hash_length: 32,
            lanes: 1,
            mem_cost: 4096,
            secret: empty,
            thread_mode: ThreadMode::Sequential,
            time_cost: 3,
            variant: Variant::Argon2i,
            version: Version::Version13,
        }
    }
}

} // verus!
