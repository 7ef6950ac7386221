//! Validation of a configuration and derivation of the memory geometry:
//! how many blocks there are, how long a lane is, and how long the four
//! segments of a lane are.
use vstd::prelude::*;

use vstd::arithmetic::div_mod::{
    lemma_div_is_ordered, lemma_div_multiples_vanish, lemma_fundamental_div_mod,
    lemma_mod_division_less_than_divisor,
};

use crate::config::Config;
use crate::error::Error;

verus! {

/// Largest byte length the initial digest can frame: 2^32 - 1.
pub const MAX_INPUT_LEN: u64 = 0xffff_ffff;

/// The first configuration rule an input set violates, if any. The rules
/// are checked in a fixed order: lanes, passes, memory, tag length, secret
/// length, associated-data length, password length, salt length.
pub open spec fn spec_validate(
    cfg: Config,
    pwd_len: nat,
    salt_len: nat,
) -> Option<Error> {
    if cfg.lanes == 0 {
        Some(Error::InvalidLanes)
    } else if cfg.time_cost == 0 {
        Some(Error::InvalidTimeCost)
    } else if (cfg.mem_cost as int) < 8 * (cfg.lanes as int) {
        Some(Error::InvalidMemCost)
    } else if cfg.hash_length < 4 {
        Some(Error::InvalidHashLength)
    } else if cfg.secret@.len() > MAX_INPUT_LEN {
        Some(Error::SecretTooLong)
    } else if cfg.ad@.len() > MAX_INPUT_LEN {
        Some(Error::AdTooLong)
    } else if pwd_len > MAX_INPUT_LEN {
        Some(Error::PwdTooLong)
    } else if salt_len < 8 || salt_len > MAX_INPUT_LEN {
        Some(Error::SaltTooShortOrTooLong)
    } else {
        None
    }
}

/// The number of memory blocks a valid configuration yields: the memory
/// cost rounded down to a multiple of four times the lane count.
pub open spec fn spec_memory_blocks(mem_cost: int, lanes: int) -> int {
    (mem_cost / (4 * lanes)) * (4 * lanes)
}

pub struct Context<'a> {
    pub config: Config<'a>,
    pub lane_length: u32,
    pub memory_blocks: u32,
    pub pwd: &'a [u8],
    pub salt: &'a [u8],
    pub segment_length: u32,
}

impl<'a> Context<'a> {
    /// A context is well formed when its configuration passes validation
    /// and its geometry fields carry the derived values.
    pub open spec fn wf(&self) -> bool {
        &&& spec_validate(self.config, self.pwd@.len(), self.salt@.len()) is None
        &&& self.config.lanes >= 1
        &&& self.config.time_cost >= 1
        &&& self.segment_length >= 2
        &&& self.lane_length == 4 * self.segment_length
        &&& self.memory_blocks == self.config.lanes * self.lane_length
        &&& self.memory_blocks == spec_memory_blocks(
            self.config.mem_cost as int,
            self.config.lanes as int,
        )
    }

    /// Validate a configuration and derive the geometry. Fails with the
    /// first violated rule, before anything is allocated; on success every
    /// geometry invariant holds.
    pub fn new(config: Config<'a>, pwd: &'a [u8], salt: &'a [u8]) -> (r: Result<
        Context<'a>,
        Error,
    >)
        ensures
            match r {
                Ok(ctx) => {
                    &&& spec_validate(config, pwd@.len(), salt@.len()) is None
                    &&& ctx.wf()
                    &&& ctx.config == config
                    &&& ctx.pwd@ == pwd@
                    &&& ctx.salt@ == salt@
                },
                Err(e) => spec_validate(config, pwd@.len(), salt@.len()) == Some(e),
            },
    {
        if config.lanes == 0 {
            return Err(Error::InvalidLanes);
        }
        if config.time_cost == 0 {
            return Err(Error::InvalidTimeCost);
        }
        if (config.mem_cost as u64) < 8 * (config.lanes as u64) {
            return Err(Error::InvalidMemCost);
        }
        if config.hash_length < 4 {
            return Err(Error::InvalidHashLength);
        }
        if (config.secret.len() as u64) > MAX_INPUT_LEN {
            return Err(Error::SecretTooLong);
        }
        if (config.ad.len() as u64) > MAX_INPUT_LEN {
            return Err(Error::AdTooLong);
        }
        if (pwd.len() as u64) > MAX_INPUT_LEN {
            return Err(Error::PwdTooLong);
        }
        if salt.len() < 8 || (salt.len() as u64) > MAX_INPUT_LEN {
            return Err(Error::SaltTooShortOrTooLong);
        }
        let four_lanes: u32 = 4 * config.lanes;
        let q: u32 = config.mem_cost / four_lanes;
        proof {
            lemma_fundamental_div_mod(config.mem_cost as int, four_lanes as int);
            lemma_mod_division_less_than_divisor(config.mem_cost as int, four_lanes as int);
            // q >= 2 because mem_cost >= 2 * four_lanes
            lemma_div_is_ordered(
                2 * (four_lanes as int),
                config.mem_cost as int,
                four_lanes as int,
            );
            lemma_div_multiples_vanish(2, four_lanes as int);
            assert(q >= 2);
            assert((four_lanes as int) * (q as int) <= config.mem_cost as int);
            assert((q as int) * (four_lanes as int) == (config.lanes as int) * (4 * q as int)
                && (q as int) * (four_lanes as int) == (four_lanes as int) * (q as int)
                && 4 * (q as int) <= (q as int) * (four_lanes as int)) by (nonlinear_arith)
                requires
                    four_lanes as int == 4 * (config.lanes as int),
                    config.lanes >= 1,
                    q >= 2,
            ;
        }
        let segment_length: u32 = q;
        let lane_length: u32 = 4 * q;
        let memory_blocks: u32 = ((q as u64) * (four_lanes as u64)) as u32;
        Ok(
            Context {
                config,
                lane_length,
                memory_blocks,
                pwd,
                salt,
                segment_length,
            },
        )
    }
}

/// Geometry invariant: in every well-formed context the lane count times
/// the lane length gives the block count, the block count is a multiple of
/// four times the lane count, and a segment is a quarter of a lane.
pub proof fn lemma_geometry_invariant(ctx: Context)
    requires
        ctx.wf(),
    ensures
        (ctx.config.lanes as int) * (ctx.lane_length as int) == ctx.memory_blocks as int,
        (ctx.memory_blocks as int) % (4 * (ctx.config.lanes as int)) == 0,
        ctx.segment_length as int == (ctx.lane_length as int) / 4,
        (ctx.lane_length as int) % 4 == 0,
{
    let lanes = ctx.config.lanes as int;
    let q = ctx.segment_length as int;
    assert((4 * q) / 4 == q) by (nonlinear_arith);
    assert((4 * q) % 4 == 0) by (nonlinear_arith);
    assert(ctx.memory_blocks as int == (4 * lanes) * q) by (nonlinear_arith)
        requires
            ctx.memory_blocks as int == lanes * (4 * q),
    ;
    assert(((4 * lanes) * q) % (4 * lanes) == 0) by (nonlinear_arith)
        requires
            lanes >= 1,
    ;
}

} // verus!
