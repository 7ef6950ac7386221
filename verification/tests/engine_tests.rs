use argon2_engine::argon2::{hash, hash_encoded, hash_encoded_js};
use argon2_engine::b2::blake2b;
use argon2_engine::block::Block;
use argon2_engine::config::Config;
use argon2_engine::context::Context;
use argon2_engine::error::Error;
use argon2_engine::memory::Memory;
use argon2_engine::result::{Argon2Result, Argon2State};
use argon2_engine::thread_mode::ThreadMode;
use argon2_engine::variant::Variant;
use argon2_engine::version::Version;
use argon2_engine::visualization::get_string_ref_lane;

fn rfc_config<'a>(variant: Variant, secret: &'a [u8], ad: &'a [u8]) -> Config<'a> {
    Config {
        ad,
        hash_length: 32,
        lanes: 4,
        mem_cost: 32,
        secret,
        thread_mode: ThreadMode::Sequential,
        time_cost: 3,
        variant,
        version: Version::Version13,
    }
}

fn hex(bytes: &[u8]) -> String {
    let mut s = String::new();
    for b in bytes {
        s.push_str(&format!("{:02x}", b));
    }
    s
}

fn rfc_tag(variant: Variant) -> String {
    let pwd = [0x01u8; 32];
    let salt = [0x02u8; 16];
    let secret = [0x03u8; 8];
    let ad = [0x04u8; 12];
    let config = rfc_config(variant, &secret, &ad);
    let tag = hash(&pwd, &salt, &config).unwrap();
    hex(&tag)
}

#[test]
fn reference_vector_argon2d() {
    assert_eq!(
        rfc_tag(Variant::Argon2d),
        "512b391b6f1162975371d30919734294f868e3be3984f3c1a13a4db9fabe4acb"
    );
}

#[test]
fn reference_vector_argon2i() {
    assert_eq!(
        rfc_tag(Variant::Argon2i),
        "c814d9d1dc7f37aa13f0d77f2494bda1c8de6b016dd388d29952a4c4672b6ce8"
    );
}

#[test]
fn reference_vector_argon2id() {
    assert_eq!(
        rfc_tag(Variant::Argon2id),
        "0d640df58d78766c08c037a34a8b53c9d01ef0452d75b65eb52520e96b01e659"
    );
}

#[test]
fn blake2b_known_digest() {
    let d = blake2b(b"abc", 64);
    assert_eq!(
        hex(&d),
        "ba80a53f981c4d0d6a2797b69f12f6e94c212f14685ac4b74b12bb6fdbffa2d1\
         7d87c5392aab792dc252d5de4533cc9518d38aa8dbf1925ab92386edd4009923"
    );
}

#[test]
fn blake2b_empty_input() {
    let d = blake2b(b"", 64);
    assert_eq!(
        hex(&d),
        "786a02f742015903c6c6fd852552d272912f4740e15847618a86e217f71f5419\
         d25e1031afee585313896444934eb04b903a685b1448b755d56f701afe9be2ce"
    );
}

#[test]
fn config_rejection_lanes() {
    let mut config = Config::default();
    config.lanes = 0;
    let r = hash(b"password", b"somesalt", &config);
    assert_eq!(r.unwrap_err(), Error::InvalidLanes);
}

#[test]
fn config_rejection_mem_cost() {
    let mut config = Config::default();
    config.lanes = 4;
    config.mem_cost = 31;
    let r = hash(b"password", b"somesalt", &config);
    assert_eq!(r.unwrap_err(), Error::InvalidMemCost);
}

#[test]
fn config_rejection_hash_length() {
    let mut config = Config::default();
    config.hash_length = 3;
    let r = hash(b"password", b"somesalt", &config);
    assert_eq!(r.unwrap_err(), Error::InvalidHashLength);
}

#[test]
fn config_rejection_short_salt() {
    let config = Config::default();
    let r = hash(b"password", b"salt", &config);
    assert_eq!(r.unwrap_err(), Error::SaltTooShortOrTooLong);
}

#[test]
fn config_rejection_time_cost() {
    let mut config = Config::default();
    config.time_cost = 0;
    let r = hash(b"password", b"somesalt", &config);
    assert_eq!(r.unwrap_err(), Error::InvalidTimeCost);
}

#[test]
fn geometry_of_context() {
    let mut config = Config::default();
    config.lanes = 3;
    config.mem_cost = 100;
    let ctx = Context::new(config, b"password", b"somesalt").unwrap();
    // 100 rounded down to a multiple of 4 * 3 = 12 gives 96 blocks.
    assert_eq!(ctx.memory_blocks, 96);
    assert_eq!(ctx.lane_length, 32);
    assert_eq!(ctx.segment_length, 8);
    assert_eq!(ctx.config.lanes * ctx.lane_length, ctx.memory_blocks);
    assert_eq!(ctx.memory_blocks % (4 * ctx.config.lanes), 0);
    assert_eq!(ctx.segment_length, ctx.lane_length / 4);
}

#[test]
fn determinism_across_thread_modes() {
    let mut c1 = Config::default();
    c1.lanes = 4;
    c1.mem_cost = 64;
    c1.variant = Variant::Argon2id;
    let mut c2 = c1;
    c2.thread_mode = ThreadMode::Parallel;
    let t1 = hash(b"password", b"somesalt", &c1).unwrap();
    let t2 = hash(b"password", b"somesalt", &c2).unwrap();
    assert_eq!(t1, t2);
}

#[test]
fn provenance_non_interference() {
    let mut config = Config::default();
    config.mem_cost = 32;
    config.lanes = 2;
    let mut with_recorder = Argon2Result::new();
    let mut without = Argon2Result {
        hash: String::new(),
        state: Argon2State::disabled(),
    };
    let e1 = hash_encoded(b"password", b"somesalt", &config, &mut with_recorder).unwrap();
    let e2 = hash_encoded(b"password", b"somesalt", &config, &mut without).unwrap();
    assert_eq!(e1, e2);
    assert!(with_recorder.state.entries.len() > 0);
    assert_eq!(without.state.entries.len(), 0);
}

#[test]
fn avalanche_on_password_bit() {
    let mut config = Config::default();
    config.mem_cost = 32;
    config.lanes = 2;
    let mut total_diff = 0u32;
    let mut total_bits = 0u32;
    for flip in 0..4 {
        let mut pwd = *b"password";
        pwd[flip] ^= 1 << flip;
        let t1 = hash(b"password", b"somesalt", &config).unwrap();
        let t2 = hash(&pwd, b"somesalt", &config).unwrap();
        for (a, b) in t1.iter().zip(t2.iter()) {
            total_diff += (a ^ b).count_ones();
            total_bits += 8;
        }
    }
    // a large fraction of the bits must differ
    assert!(total_diff * 4 > total_bits);
}

#[test]
fn avalanche_on_salt_bit() {
    let mut config = Config::default();
    config.mem_cost = 32;
    let t1 = hash(b"password", b"somesalt", &config).unwrap();
    let t2 = hash(b"password", b"sonesalt", &config).unwrap();
    let mut diff = 0u32;
    for (a, b) in t1.iter().zip(t2.iter()) {
        diff += (a ^ b).count_ones();
    }
    assert!(diff * 4 > 256);
}

#[test]
fn encoded_form_and_round_trip() {
    let mut config = Config::default();
    config.mem_cost = 32;
    config.lanes = 2;
    config.variant = Variant::Argon2id;
    let mut result = Argon2Result::new();
    let encoded = hash_encoded(b"password", b"somesalt", &config, &mut result).unwrap();
    assert_eq!(result.hash, encoded);
    let parts: Vec<&str> = encoded.split('$').collect();
    assert_eq!(parts.len(), 6);
    assert_eq!(parts[0], "");
    assert_eq!(parts[1], "argon2id");
    assert_eq!(parts[2], "v=19");
    assert_eq!(parts[3], "m=32,t=3,p=2");
    assert_eq!(parts[4], base64::encode_config(b"somesalt", base64::STANDARD_NO_PAD));
    let tag = hash(b"password", b"somesalt", &config).unwrap();
    assert_eq!(parts[5], base64::encode_config(&tag, base64::STANDARD_NO_PAD));
    let salt_back = base64::decode_config(parts[4], base64::STANDARD_NO_PAD).unwrap();
    assert_eq!(salt_back, b"somesalt");
    let tag_back = base64::decode_config(parts[5], base64::STANDARD_NO_PAD).unwrap();
    assert_eq!(tag_back, tag);
}

#[test]
fn encoded_js_defaults() {
    let encoded = hash_encoded_js(
        "password".to_string(),
        "somesalt".to_string(),
        String::new(),
    );
    assert!(encoded.starts_with("$argon2i$v=19$m=4096,t=3,p=1$"));
}

#[test]
fn encoded_js_rejects_short_salt() {
    let encoded = hash_encoded_js("password".to_string(), "salt".to_string(), String::new());
    assert_eq!(encoded, "");
}

#[test]
fn variant_names() {
    assert_eq!(Variant::Argon2d.as_lowercase_str(), "argon2d");
    assert_eq!(Variant::Argon2i.as_lowercase_str(), "argon2i");
    assert_eq!(Variant::Argon2id.as_lowercase_str(), "argon2id");
    assert_eq!(Variant::default(), Variant::Argon2i);
}

#[test]
fn version_codes() {
    assert_eq!(Version::Version10.as_u32(), 0x10);
    assert_eq!(Version::Version13.as_u32(), 0x13);
    assert_eq!(Version::default(), Version::Version13);
}

#[test]
fn thread_mode_from_threads() {
    assert_eq!(ThreadMode::from_threads(0), ThreadMode::Sequential);
    assert_eq!(ThreadMode::from_threads(1), ThreadMode::Sequential);
    assert_eq!(ThreadMode::from_threads(2), ThreadMode::Parallel);
    assert_eq!(ThreadMode::default(), ThreadMode::Sequential);
}

#[test]
fn config_defaults() {
    let c = Config::from_json("{}".to_string());
    assert_eq!(c.hash_length, 32);
    assert_eq!(c.lanes, 1);
    assert_eq!(c.mem_cost, 4096);
    assert_eq!(c.time_cost, 3);
    assert_eq!(c.variant, Variant::Argon2i);
    assert_eq!(c.version, Version::Version13);
    assert_eq!(c.thread_mode, ThreadMode::Sequential);
    assert!(c.ad.is_empty());
    assert!(c.secret.is_empty());
}

#[test]
fn memory_starts_zeroed() {
    let m = Memory::new(2, 8);
    let b = m.block_at(1, 7);
    for i in 0..128 {
        assert_eq!(b.word(i), 0);
    }
    let z = Block::zero();
    assert_eq!(z.word(0), 0);
    assert_eq!(z.word(127), 0);
}

#[test]
fn recorder_lookup_and_export() {
    let mut config = Config::default();
    config.mem_cost = 32;
    config.lanes = 2;
    let mut result = Argon2Result::new();
    hash_encoded(b"password", b"somesalt", &config, &mut result).unwrap();
    // every lane fills 16 columns per pass, minus the two seeded columns
    // of each lane in the first pass: 3 * 32 - 4 = 92 commits
    assert_eq!(result.state.entries.len(), 92);
    let exported = result.state.export();
    assert_eq!(exported.len(), 92);
    assert!(exported.iter().any(|(k, _)| k == "B^0[0][2]"));
    assert!(exported.iter().any(|(k, _)| k == "B^2[1][15]"));
    let v = result.state.get_value(0, 0, 2).unwrap();
    assert_eq!(v.ref_lane, "0");
    let none = result.state.get_value(0, 0, 1);
    assert!(none.is_none());
}

#[test]
fn string_ref_lane_cases() {
    assert_eq!(get_string_ref_lane(0, 0, 3, 99), Some("3".to_string()));
    assert_eq!(get_string_ref_lane(2, 0, 3, 99), Some("99".to_string()));
    assert_eq!(get_string_ref_lane(0, 1, 3, 99), None);
    assert_eq!(get_string_ref_lane(2, 3, 3, 99), None);
}

#[test]
fn version_10_differs_from_13() {
    let mut c1 = Config::default();
    c1.mem_cost = 32;
    let mut c2 = c1;
    c2.version = Version::Version10;
    let t1 = hash(b"password", b"somesalt", &c1).unwrap();
    let t2 = hash(b"password", b"somesalt", &c2).unwrap();
    assert_ne!(t1, t2);
    assert_eq!(t1.len(), 32);
    assert_eq!(t2.len(), 32);
}
