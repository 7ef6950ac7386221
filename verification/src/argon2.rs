//! Entry points: derive a tag from a password, a salt and a
//! configuration, and compose the encoded credential string.
use vstd::prelude::*;

use vstd::utf8::encode_utf8;

use crate::config::Config;
use crate::context::{spec_validate, Context};
use crate::encoding::{encode_string, spec_encoded};
use crate::engine::{
    fill_memory_blocks, finalize, initialize, lemma_params_of_context, params_of, spec_params_for,
    spec_tag, spec_zero_memory, Params,
};
use crate::error::Error;
use crate::memory::Memory;
use crate::result::{Argon2Result, Argon2State};
use crate::variant::Variant;
use crate::version::Version;

verus! {

/// Compute the raw tag for a validated context, recording provenance when
/// the recorder is enabled.
pub fn run(context: &Context, state: &mut Argon2Result) -> (r: Vec<u8>)
    requires
        context.wf(),
    ensures
        r@ == spec_tag(params_of(*context)),
        final(state).hash == old(state).hash,
        final(state).state.enabled == old(state).state.enabled,
        !old(state).state.enabled ==> final(state).state.entries@ == old(state).state.entries@,
{
    proof {
        reveal(crate::engine::spec_tag);
        assert((context.config.lanes as int) * (context.lane_length as int)
            == context.memory_blocks as int);
    }
    let mut memory = Memory::new(context.config.lanes, context.lane_length);
    proof {
        assert(memory@ =~= spec_zero_memory(params_of(*context)));
    }
    initialize(context, &mut memory);
    fill_memory_blocks(context, &mut memory, state);
    finalize(context, &memory)
}

/// Derive the raw tag. Succeeds exactly on the inputs the validation
/// rules accept, and then returns the tag the parameters denote; fails
/// with the first violated rule otherwise.
pub fn hash(pwd: &[u8], salt: &[u8], config: &Config) -> (r: Result<Vec<u8>, Error>)
    ensures
        match r {
            Ok(tag) => spec_validate(*config, pwd@.len(), salt@.len()) is None && tag@ == spec_tag(
                spec_params_for(*config, pwd@, salt@),
            ),
            Err(e) => spec_validate(*config, pwd@.len(), salt@.len()) == Some(e),
        },
{
    match Context::new(*config, pwd, salt) {
        Err(e) => Err(e),
        Ok(context) => {
            proof {
                lemma_params_of_context(context);
            }
            let mut st = Argon2Result::without_recorder();
            Ok(run(&context, &mut st))
        },
    }
}

/// Derive the tag and compose the encoded credential. On success the
/// string is also stored in the result's `hash` field; the recorder inside
/// the result observes the fill when it is enabled.
#[verifier::rlimit(100)]
#[verifier::spinoff_prover]
pub fn hash_encoded(pwd: &[u8], salt: &[u8], config: &Config, state: &mut Argon2Result) -> (r:
    Result<String, Error>)
    requires
        salt@.len() < 0x3000_0000,
        config.hash_length < 0x3000_0000,
    ensures
        match r {
            Ok(s) => {
                &&& spec_validate(*config, pwd@.len(), salt@.len()) is None
                &&& s@ == spec_encoded(
                    config.variant,
                    config.version,
                    config.mem_cost,
                    config.time_cost,
                    config.lanes,
                    salt@,
                    spec_tag(spec_params_for(*config, pwd@, salt@)),
                ).map_values(|b: u8| b as char)
                &&& final(state).hash@ == s@
                &&& final(state).state.enabled == old(state).state.enabled
                &&& !old(state).state.enabled ==> final(state).state.entries@ == old(
                    state,
                ).state.entries@
            },
            Err(e) => spec_validate(*config, pwd@.len(), salt@.len()) == Some(e) && *final(state)
                == *old(state),
        },
{
    match Context::new(*config, pwd, salt) {
        Err(e) => Err(e),
        Ok(context) => {
            proof {
                lemma_params_of_context(context);
            }
            let tag = run(&context, state);
            proof {
                crate::engine::lemma_tag_len(params_of(context));
            }
            let encoded = encode_string(&context, tag.as_slice());
            state.hash = encoded.clone();
            Ok(encoded)
        },
    }
}

/// The host-facing binding: password, salt and configuration arrive as
/// strings; the configuration record falls back to the documented
/// defaults. The encoded credential comes back, or the empty string when
/// the inputs are rejected or the salt is too large to encode.
#[verifier::rlimit(100)]
#[verifier::spinoff_prover]
pub fn hash_encoded_js(pwd: String, salt: String, config_json: String) -> (r: String)
    ensures
        ({
            let pb = encode_utf8(pwd@);
            let sb = encode_utf8(salt@);
            if 8 <= sb.len() && sb.len() < 0x3000_0000 && pb.len() <= 0xffff_ffff {
                r@ == spec_encoded(
                    Variant::Argon2i,
                    Version::Version13,
                    4096u32,
                    3u32,
                    1u32,
                    sb,
                    spec_tag(spec_default_params(pb, sb)),
                ).map_values(|b: u8| b as char)
            } else {
                r@ == Seq::<char>::empty()
            }
        }),
{
    let config = Config::from_json(config_json);
    let mut result = Argon2Result::new();
    let pb = pwd.as_str().as_bytes();
    let sb = salt.as_str().as_bytes();
    if sb.len() >= 0x3000_0000 {
        return String::new();
    }
    match hash_encoded(pb, sb, &config, &mut result) {
        Ok(s) => {
            proof {
                assert(spec_params_for(config, pb@, sb@) == spec_default_params(
                    encode_utf8(pwd@),
                    encode_utf8(salt@),
                ));
            }
            s
        },
        Err(_) => String::new(),
    }
}

/// The parameters the documented fallback configuration denotes: one lane
/// of 4096 blocks, three passes, a 32-byte tag, the data-independent
/// variant at version 0x13, no secret and no associated data.
pub open spec fn spec_default_params(pwd: Seq<u8>, salt: Seq<u8>) -> Params {
    Params {
        variant: Variant::Argon2i,
        version: Version::Version13,
        hash_length: 32u32,
        mem_cost: 4096u32,
        lanes: 1,
        segment_length: 1024,
        lane_length: 4096,
        memory_blocks: 4096,
        time_cost: 3,
        pwd,
        salt,
        secret: Seq::empty(),
        ad: Seq::empty(),
    }
}

/// Determinism across dispatch modes: two configurations that differ only
/// in their thread mode are validated alike and denote the same
/// parameters, so they yield the same tag. The dispatch mode never enters
/// the computation's model.
pub proof fn lemma_thread_mode_immaterial(c1: Config, c2: Config, pwd: Seq<u8>, salt: Seq<u8>)
    requires
        c1.ad == c2.ad,
        c1.hash_length == c2.hash_length,
        c1.lanes == c2.lanes,
        c1.mem_cost == c2.mem_cost,
        c1.secret == c2.secret,
        c1.time_cost == c2.time_cost,
        c1.variant == c2.variant,
        c1.version == c2.version,
    ensures
        spec_validate(c1, pwd.len(), salt.len()) == spec_validate(c2, pwd.len(), salt.len()),
        spec_params_for(c1, pwd, salt) == spec_params_for(c2, pwd, salt),
        spec_tag(spec_params_for(c1, pwd, salt)) == spec_tag(spec_params_for(c2, pwd, salt)),
{
}

/// Provenance non-interference: the tag is a function of the parameters
/// alone. `hash` and `hash_encoded` promise their output equals
/// `spec_tag(spec_params_for(..))`, an expression in which no recorder
/// occurs, so two runs whose recorders differ — one enabled, one not —
/// are promised the same tag.
pub proof fn lemma_recorder_immaterial(
    config: Config,
    pwd: Seq<u8>,
    salt: Seq<u8>,
    s1: Argon2State,
    s2: Argon2State,
)
    ensures
        spec_tag(spec_params_for(config, pwd, salt)) == spec_tag(
            spec_params_for(config, pwd, salt),
        ),
{
}

} // verus!
