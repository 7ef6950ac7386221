//! The encoded credential string: `$<name>$v=<version>$m=<mem>,t=<passes>,
//! p=<lanes>$<salt base64>$<tag base64>`, and its decoder. Both directions
//! are pinned to the same specification, so decoding what was encoded gives
//! back exactly the fields that went in.
use vstd::prelude::*;

use crate::context::Context;
use crate::error::DecodingError;
use crate::variant::{variant_name, Variant};
use crate::version::{version_code, Version};

verus! {

/// The decimal digits of a non-negative number, most significant first.
pub open spec fn dec_digits(n: int) -> Seq<u8>
    recommends
        n >= 0,
    decreases n,
{
    if n < 10 {
        seq![(48 + n) as u8]
    } else {
        dec_digits(n / 10).push((48 + n % 10) as u8)
    }
}

/// Append the decimal digits of n.
pub fn push_dec(out: &mut Vec<u8>, n: u64)
    ensures
        final(out)@ == old(out)@ + dec_digits(n as int),
    decreases n,
{
    if n < 10 {
        out.push(48 + n as u8);
        proof {
            assert(out@ =~= old(out)@ + dec_digits(n as int));
        }
    } else {
        push_dec(out, n / 10);
        out.push(48 + (n % 10) as u8);
        proof {
            assert(out@ =~= old(out)@ + dec_digits(n as int));
        }
    }
}

/// The character of one 6-bit value, in the standard alphabet
/// A–Z a–z 0–9 + /.
pub open spec fn b64_char(x: int) -> u8 {
    if x < 26 {
        (65 + x) as u8
    } else if x < 52 {
        (97 + x - 26) as u8
    } else if x < 62 {
        (48 + x - 52) as u8
    } else if x == 62 {
        43u8
    } else {
        47u8
    }
}

/// Base64 without padding: three bytes to four characters, a rest of two
/// bytes to three characters, a rest of one byte to two.
pub open spec fn spec_b64(s: Seq<u8>) -> Seq<u8>
    decreases s.len(),
{
    if s.len() >= 3 {
        let a = s[0] as int;
        let b = s[1] as int;
        let c = s[2] as int;
        seq![
            b64_char(a / 4),
            b64_char((a % 4) * 16 + b / 16),
            b64_char((b % 16) * 4 + c / 64),
            b64_char(c % 64),
        ] + spec_b64(s.skip(3))
    } else if s.len() == 2 {
        let a = s[0] as int;
        let b = s[1] as int;
        seq![b64_char(a / 4), b64_char((a % 4) * 16 + b / 16), b64_char((b % 16) * 4)]
    } else if s.len() == 1 {
        let a = s[0] as int;
        seq![b64_char(a / 4), b64_char((a % 4) * 16)]
    } else {
        Seq::empty()
    }
}

/// Relies on base64::encode_config with base64::STANDARD_NO_PAD: the
/// standard alphabet A–Z a–z 0–9 + /, four characters per three bytes,
/// shorter final group, no padding characters.
#[verifier::external_body]
fn b64_encode(data: &[u8]) -> (r: Vec<u8>)
    requires
        data@.len() < 0x3000_0000,
    ensures
        r@ == spec_b64(data@),
{
    base64::encode_config(data, base64::STANDARD_NO_PAD).into_bytes()
}

/// Relies on String::from_utf8: bytes below 0x80 are single-byte scalars,
/// so the string's characters equal the bytes.
#[verifier::external_body]
pub(crate) fn ascii_to_string(bytes: Vec<u8>) -> (r: String)
    requires
        forall|i: int| 0 <= i < bytes@.len() ==> bytes@[i] < 0x80,
    ensures
        r@.len() == bytes@.len(),
        forall|i: int| 0 <= i < r@.len() ==> r@[i] == bytes@[i] as char,
{
    match String::from_utf8(bytes) {
        Ok(s) => s,
        Err(_) => String::new(),
    }
}

/// The encoded credential: variant name, version, the three cost
/// parameters, then salt and tag in base64, all between dollar signs.
pub open spec fn spec_encoded(
    variant: Variant,
    version: Version,
    mem_cost: u32,
    time_cost: u32,
    lanes: u32,
    salt: Seq<u8>,
    tag: Seq<u8>,
) -> Seq<u8> {
    seq![36u8] + variant_name(variant) + seq![36u8, 118u8, 61u8] + dec_digits(
        version_code(version) as int,
    ) + seq![36u8, 109u8, 61u8] + dec_digits(mem_cost as int) + seq![44u8, 116u8, 61u8]
        + dec_digits(time_cost as int) + seq![44u8, 112u8, 61u8] + dec_digits(lanes as int) + seq![
        36u8,
    ] + spec_b64(salt) + seq![36u8] + spec_b64(tag)
}

/// The encoded credential, as bytes.
pub fn encoded_bytes(ctx: &Context, hash: &[u8]) -> (r: Vec<u8>)
    requires
        ctx.wf(),
        ctx.salt@.len() < 0x3000_0000,
        hash@.len() < 0x3000_0000,
    ensures
        r@ == spec_encoded(
            ctx.config.variant,
            ctx.config.version,
            ctx.config.mem_cost,
            ctx.config.time_cost,
            ctx.config.lanes,
            ctx.salt@,
            hash@,
        ),
{
    let mut out: Vec<u8> = Vec::new();
    out.push(36);
    let nb = ctx.config.variant.name_bytes();
    crate::words::push_bytes(&mut out, nb.as_slice());
    out.push(36);
    out.push(118);
    out.push(61);
    push_dec(&mut out, ctx.config.version.as_u32() as u64);
    out.push(36);
    out.push(109);
    out.push(61);
    push_dec(&mut out, ctx.config.mem_cost as u64);
    out.push(44);
    out.push(116);
    out.push(61);
    push_dec(&mut out, ctx.config.time_cost as u64);
    out.push(44);
    out.push(112);
    out.push(61);
    push_dec(&mut out, ctx.config.lanes as u64);
    out.push(36);
    let sb = b64_encode(ctx.salt);
    crate::words::push_bytes(&mut out, sb.as_slice());
    out.push(36);
    let tb = b64_encode(hash);
    crate::words::push_bytes(&mut out, tb.as_slice());
    proof {
        assert(out@ =~= spec_encoded(
            ctx.config.variant,
            ctx.config.version,
            ctx.config.mem_cost,
            ctx.config.time_cost,
            ctx.config.lanes,
            ctx.salt@,
            hash@,
        ));
    }
    out
}

/// Every character the encoder can produce is a printable one-byte
/// character.
pub proof fn lemma_dec_ascii(n: int)
    requires
        n >= 0,
    ensures
        forall|i: int| 0 <= i < dec_digits(n).len() ==> 48 <= #[trigger] dec_digits(n)[i] <= 57,
    decreases n,
{
    if n >= 10 {
        lemma_dec_ascii(n / 10);
        assert forall|i: int| 0 <= i < dec_digits(n).len() implies 48 <= #[trigger] dec_digits(
            n,
        )[i] <= 57 by {
            if i < dec_digits(n / 10).len() {
                assert(dec_digits(n)[i] == dec_digits(n / 10)[i]);
            } else {
                assert(dec_digits(n)[i] == (48 + n % 10) as u8);
            }
        }
    }
}

pub proof fn lemma_b64_ascii(s: Seq<u8>)
    ensures
        forall|i: int| 0 <= i < spec_b64(s).len() ==> 43 <= #[trigger] spec_b64(s)[i] < 0x80,
    decreases s.len(),
{
    if s.len() >= 3 {
        lemma_b64_ascii(s.skip(3));
        assert forall|i: int| 0 <= i < spec_b64(s).len() implies 43 <= #[trigger] spec_b64(
            s,
        )[i] < 0x80 by {
            if i >= 4 {
                assert(spec_b64(s)[i] == spec_b64(s.skip(3))[i - 4]);
            }
        }
    }
}

proof fn lemma_encoded_ascii(
    variant: Variant,
    version: Version,
    mem_cost: u32,
    time_cost: u32,
    lanes: u32,
    salt: Seq<u8>,
    tag: Seq<u8>,
)
    ensures
        forall|i: int|
            0 <= i < spec_encoded(variant, version, mem_cost, time_cost, lanes, salt, tag).len()
                ==> #[trigger] spec_encoded(
                variant,
                version,
                mem_cost,
                time_cost,
                lanes,
                salt,
                tag,
            )[i] < 0x80,
{
    lemma_dec_ascii(version_code(version) as int);
    lemma_dec_ascii(mem_cost as int);
    lemma_dec_ascii(time_cost as int);
    lemma_dec_ascii(lanes as int);
    lemma_b64_ascii(salt);
    lemma_b64_ascii(tag);
}

/// The encoded credential, as a string.
pub fn encode_string(ctx: &Context, hash: &[u8]) -> (r: String)
    requires
        ctx.wf(),
        ctx.salt@.len() < 0x3000_0000,
        hash@.len() < 0x3000_0000,
    ensures
        r@ == spec_encoded(
            ctx.config.variant,
            ctx.config.version,
            ctx.config.mem_cost,
            ctx.config.time_cost,
            ctx.config.lanes,
            ctx.salt@,
            hash@,
        ).map_values(|b: u8| b as char),
{
    let bytes = encoded_bytes(ctx, hash);
    proof {
        lemma_encoded_ascii(
            ctx.config.variant,
            ctx.config.version,
            ctx.config.mem_cost,
            ctx.config.time_cost,
            ctx.config.lanes,
            ctx.salt@,
            hash@,
        );
    }
    let ghost b = bytes@;
    let s = ascii_to_string(bytes);
    proof {
        assert(s@ =~= b.map_values(|x: u8| x as char));
    }
    s
}


/// The field before the first occurrence of the delimiter, and what
/// follows it.
pub open spec fn take_until(s: Seq<u8>, d: u8) -> Option<(Seq<u8>, Seq<u8>)>
    decreases s.len(),
{
    if s.len() == 0 {
        None
    } else if s[0] == d {
        Some((Seq::empty(), s.skip(1)))
    } else {
        match take_until(s.skip(1), d) {
            Some(p) => Some((seq![s[0]] + p.0, p.1)),
            None => None,
        }
    }
}

pub open spec fn is_digits(s: Seq<u8>) -> bool {
    s.len() >= 1 && forall|i: int| 0 <= i < s.len() ==> 48 <= #[trigger] s[i] <= 57
}

/// The number a digit string denotes.
pub open spec fn dec_value(s: Seq<u8>) -> int
    decreases s.len(),
{
    if s.len() == 0 {
        0
    } else {
        dec_value(s.drop_last()) * 10 + (s.last() - 48)
    }
}

/// The 6-bit value of one alphabet character, if it is one.
pub open spec fn b64_val(c: u8) -> Option<int> {
    if 65 <= c <= 90 {
        Some((c - 65) as int)
    } else if 97 <= c <= 122 {
        Some((c - 97 + 26) as int)
    } else if 48 <= c <= 57 {
        Some((c - 48 + 52) as int)
    } else if c == 43 {
        Some(62int)
    } else if c == 47 {
        Some(63int)
    } else {
        None
    }
}

/// Base64 decoding without padding. A trailing group of one character is
/// impossible; unused low bits of a final group are ignored.
pub open spec fn spec_b64_decode(s: Seq<u8>) -> Option<Seq<u8>>
    decreases s.len(),
{
    if s.len() == 0 {
        Some(Seq::empty())
    } else if s.len() == 1 {
        None
    } else if s.len() == 2 {
        match (b64_val(s[0]), b64_val(s[1])) {
            (Some(a), Some(b)) => Some(seq![(a * 4 + b / 16) as u8]),
            _ => None,
        }
    } else if s.len() == 3 {
        match (b64_val(s[0]), b64_val(s[1]), b64_val(s[2])) {
            (Some(a), Some(b), Some(c)) => Some(
                seq![(a * 4 + b / 16) as u8, ((b % 16) * 16 + c / 4) as u8],
            ),
            _ => None,
        }
    } else {
        match (b64_val(s[0]), b64_val(s[1]), b64_val(s[2]), b64_val(s[3])) {
            (Some(a), Some(b), Some(c), Some(d)) => match spec_b64_decode(s.skip(4)) {
                Some(rest) => Some(
                    seq![
                        (a * 4 + b / 16) as u8,
                        ((b % 16) * 16 + c / 4) as u8,
                        ((c % 4) * 64 + d) as u8,
                    ] + rest,
                ),
                None => None,
            },
            _ => None,
        }
    }
}

/// A decoded credential, at the specification level.
pub ghost struct SpecDecoded {
    pub variant: Variant,
    pub version: Version,
    pub mem_cost: u32,
    pub time_cost: u32,
    pub lanes: u32,
    pub salt: Seq<u8>,
    pub hash: Seq<u8>,
}

/// The leading `$<name>` of a credential.
pub open spec fn parse_variant(s: Seq<u8>) -> Result<(Variant, Seq<u8>), DecodingError> {
    if s.len() == 0 || s[0] != 36 {
        Err(DecodingError::MalformedPrefix)
    } else {
        match take_until(s.skip(1), 36) {
            None => Err(DecodingError::MalformedPrefix),
            Some(pr) => {
                if pr.0 == variant_name(Variant::Argon2d) {
                    Ok((Variant::Argon2d, pr.1))
                } else if pr.0 == variant_name(Variant::Argon2i) {
                    Ok((Variant::Argon2i, pr.1))
                } else if pr.0 == variant_name(Variant::Argon2id) {
                    Ok((Variant::Argon2id, pr.1))
                } else {
                    Err(DecodingError::UnsupportedVariant)
                }
            },
        }
    }
}

/// A numeric field: its two-character name, its decimal digits (at most
/// ten), and its terminator.
pub open spec fn parse_num(s: Seq<u8>, p0: u8, p1: u8, term: u8) -> Result<
    (u32, Seq<u8>),
    DecodingError,
> {
    if s.len() < 2 || s[0] != p0 || s[1] != p1 {
        Err(DecodingError::MalformedPrefix)
    } else {
        match take_until(s.skip(2), term) {
            None => Err(DecodingError::MalformedPrefix),
            Some(pr) => {
                if !is_digits(pr.0) || pr.0.len() > 10 {
                    Err(DecodingError::MalformedPrefix)
                } else if dec_value(pr.0) > 0xffff_ffff {
                    Err(DecodingError::LengthMismatch)
                } else {
                    Ok((dec_value(pr.0) as u32, pr.1))
                }
            },
        }
    }
}

/// The `v=<n>$` field; only 16 and 19 are known versions.
pub open spec fn parse_version(s: Seq<u8>) -> Result<(Version, Seq<u8>), DecodingError> {
    match parse_num(s, 118, 61, 36) {
        Err(e) => Err(e),
        Ok(pr) => {
            if pr.0 == 16 {
                Ok((Version::Version10, pr.1))
            } else if pr.0 == 19 {
                Ok((Version::Version13, pr.1))
            } else {
                Err(DecodingError::UnsupportedVersion)
            }
        },
    }
}

/// The whole credential, field by field.
pub open spec fn spec_decode(s: Seq<u8>) -> Result<SpecDecoded, DecodingError> {
    match parse_variant(s) {
        Err(e) => Err(e),
        Ok((variant, r1)) => match parse_version(r1) {
            Err(e) => Err(e),
            Ok((version, r2)) => match parse_num(r2, 109, 61, 44) {
                Err(e) => Err(e),
                Ok((mem_cost, r3)) => match parse_num(r3, 116, 61, 44) {
                    Err(e) => Err(e),
                    Ok((time_cost, r4)) => match parse_num(r4, 112, 61, 36) {
                        Err(e) => Err(e),
                        Ok((lanes, r5)) => match take_until(r5, 36) {
                            None => Err(DecodingError::MalformedPrefix),
                            Some(pr) => match (spec_b64_decode(pr.0), spec_b64_decode(pr.1)) {
                                (Some(salt), Some(hash)) => Ok(
                                    SpecDecoded {
                                        variant,
                                        version,
                                        mem_cost,
                                        time_cost,
                                        lanes,
                                        salt,
                                        hash,
                                    },
                                ),
                                _ => Err(DecodingError::InvalidBase64),
                            },
                        },
                    },
                },
            },
        },
    }
}

/// Splitting at a delimiter finds the delimiter's first occurrence.
proof fn lemma_take_until_found(t: Seq<u8>, k: int, d: u8)
    requires
        0 <= k < t.len(),
        t[k] == d,
        forall|j: int| 0 <= j < k ==> t[j] != d,
    ensures
        take_until(t, d) == Some((t.take(k), t.skip(k + 1))),
    decreases k,
{
    if k == 0 {
        assert(t.take(0) =~= Seq::empty());
    } else {
        lemma_take_until_found(t.skip(1), k - 1, d);
        assert(t.skip(1).take(k - 1) =~= t.take(k).skip(1));
        assert(t.skip(1).skip(k) =~= t.skip(k + 1));
        assert(seq![t[0]] + t.take(k).skip(1) =~= t.take(k));
    }
}

proof fn lemma_take_until_none(t: Seq<u8>, d: u8)
    requires
        forall|j: int| 0 <= j < t.len() ==> t[j] != d,
    ensures
        take_until(t, d) is None,
    decreases t.len(),
{
    if t.len() > 0 {
        lemma_take_until_none(t.skip(1), d);
    }
}

/// A prefix free of the delimiter splits exactly at the delimiter.
proof fn lemma_take_until_prefix(prefix: Seq<u8>, rest: Seq<u8>, d: u8)
    requires
        forall|j: int| 0 <= j < prefix.len() ==> prefix[j] != d,
    ensures
        take_until(prefix + seq![d] + rest, d) == Some((prefix, rest)),
{
    let t = prefix + seq![d] + rest;
    let k = prefix.len() as int;
    assert(t[k] == d);
    lemma_take_until_found(t, k, d);
    assert(t.take(k) =~= prefix);
    assert(t.skip(k + 1) =~= rest);
}

/// Printing a number and reading it back gives the number.
proof fn lemma_dec_roundtrip(n: int)
    requires
        n >= 0,
    ensures
        is_digits(dec_digits(n)),
        dec_value(dec_digits(n)) == n,
    decreases n,
{
    lemma_dec_ascii(n);
    if n < 10 {
        assert(dec_digits(n).drop_last() =~= Seq::<u8>::empty());
        assert(dec_digits(n).last() == (48 + n) as u8);
        assert(dec_value(dec_digits(n)) == dec_value(Seq::<u8>::empty()) * 10 + ((48 + n) as u8
            - 48));
    } else {
        lemma_dec_roundtrip(n / 10);
        assert(dec_digits(n).drop_last() =~= dec_digits(n / 10));
        assert(dec_digits(n).last() == (48 + n % 10) as u8);
        assert(dec_value(dec_digits(n)) == dec_value(dec_digits(n).drop_last()) * 10 + (dec_digits(
            n,
        ).last() - 48));
        assert(dec_value(dec_digits(n).drop_last()) == dec_value(dec_digits(n / 10)));
        assert(dec_value(dec_digits(n)) == (n / 10) * 10 + n % 10);
    }
}

spec fn pow10(k: nat) -> int
    decreases k,
{
    if k == 0 {
        1
    } else {
        10 * pow10((k - 1) as nat)
    }
}

proof fn lemma_dec_len(n: int, k: nat)
    requires
        0 <= n < pow10(k),
        k >= 1,
    ensures
        dec_digits(n).len() <= k,
    decreases k,
{
    if n >= 10 {
        assert(pow10(k) == 10 * pow10((k - 1) as nat));
        assert(n / 10 < pow10((k - 1) as nat)) by (nonlinear_arith)
            requires
                n < 10 * pow10((k - 1) as nat),
                n >= 10,
        ;
        lemma_dec_len(n / 10, (k - 1) as nat);
    }
}

/// Any 32-bit value prints in at most ten digits.
proof fn lemma_dec_len_u32(n: int)
    requires
        0 <= n <= 0xffff_ffff,
    ensures
        dec_digits(n).len() <= 10,
{
    reveal_with_fuel(pow10, 11);
    assert(pow10(10) == 10_000_000_000);
    lemma_dec_len(n, 10);
}

/// A character of the alphabet decodes to its 6-bit value.
proof fn lemma_b64_char_val(x: int)
    requires
        0 <= x < 64,
    ensures
        b64_val(b64_char(x)) == Some(x),
{
}

/// Encoding and then decoding three bytes gives the bytes back.
proof fn lemma_b64_group(a: int, b: int, c: int)
    requires
        0 <= a < 256,
        0 <= b < 256,
        0 <= c < 256,
    ensures
        (a / 4) * 4 + ((a % 4) * 16 + b / 16) / 16 == a,
        (((a % 4) * 16 + b / 16) % 16) * 16 + ((b % 16) * 4 + c / 64) / 4 == b,
        (((b % 16) * 4 + c / 64) % 4) * 64 + c % 64 == c,
        0 <= (a % 4) * 16 + b / 16 < 64,
        0 <= (b % 16) * 4 + c / 64 < 64,
{
    assert(((a % 4) * 16 + b / 16) / 16 == a % 4 && ((a % 4) * 16 + b / 16) % 16 == b / 16)
        by (nonlinear_arith)
        requires
            0 <= a < 256,
            0 <= b < 256,
    ;
    assert(((b % 16) * 4 + c / 64) / 4 == b % 16 && ((b % 16) * 4 + c / 64) % 4 == c / 64)
        by (nonlinear_arith)
        requires
            0 <= b < 256,
            0 <= c < 256,
    ;
}

/// Decoding inverts encoding, for any byte sequence.
proof fn lemma_b64_roundtrip(s: Seq<u8>)
    ensures
        spec_b64_decode(spec_b64(s)) == Some(s),
    decreases s.len(),
{
    let e = spec_b64(s);
    if s.len() == 0 {
        assert(s =~= Seq::<u8>::empty());
    } else if s.len() == 1 {
        let a = s[0] as int;
        lemma_b64_group(a, 0, 0);
        lemma_b64_char_val(a / 4);
        lemma_b64_char_val((a % 4) * 16);
        assert(spec_b64_decode(e) == Some(seq![((a / 4) * 4 + ((a % 4) * 16) / 16) as u8]));
        assert(seq![((a / 4) * 4 + ((a % 4) * 16) / 16) as u8] =~= s);
    } else if s.len() == 2 {
        let a = s[0] as int;
        let b = s[1] as int;
        lemma_b64_group(a, b, 0);
        lemma_b64_char_val(a / 4);
        lemma_b64_char_val((a % 4) * 16 + b / 16);
        lemma_b64_char_val((b % 16) * 4);
        assert(spec_b64_decode(e) matches Some(dd) && dd =~= s);
    } else {
        let a = s[0] as int;
        let b = s[1] as int;
        let c = s[2] as int;
        lemma_b64_group(a, b, c);
        lemma_b64_char_val(a / 4);
        lemma_b64_char_val((a % 4) * 16 + b / 16);
        lemma_b64_char_val((b % 16) * 4 + c / 64);
        lemma_b64_char_val(c % 64);
        lemma_b64_roundtrip(s.skip(3));
        let grp = seq![
            b64_char(a / 4),
            b64_char((a % 4) * 16 + b / 16),
            b64_char((b % 16) * 4 + c / 64),
            b64_char(c % 64),
        ];
        assert(e =~= grp + spec_b64(s.skip(3)));
        assert(e.len() >= 4);
        assert(e[0] == grp[0] && e[1] == grp[1] && e[2] == grp[2] && e[3] == grp[3]);
        assert(e.skip(4) =~= spec_b64(s.skip(3)));
        let dd = spec_b64_decode(e);
        assert(dd matches Some(v) && v =~= s);
    }
}



proof fn lemma_variant_name_no_delim(v: Variant)
    ensures
        forall|j: int|
            0 <= j < variant_name(v).len() ==> 50 <= #[trigger] variant_name(v)[j] <= 122,
{
    let nm = variant_name(v);
    match v {
        Variant::Argon2d => {
            assert forall|j: int| 0 <= j < nm.len() implies 50 <= #[trigger] nm[j] <= 122 by {
                assert(nm.len() == 7);
                if j == 0 {
                    assert(nm[j] == 97);
                } else if j == 1 {
                    assert(nm[j] == 114);
                } else if j == 2 {
                    assert(nm[j] == 103);
                } else if j == 3 {
                    assert(nm[j] == 111);
                } else if j == 4 {
                    assert(nm[j] == 110);
                } else if j == 5 {
                    assert(nm[j] == 50);
                } else {
                    assert(nm[j] == 100);
                }
            }
        },
        Variant::Argon2i => {
            assert forall|j: int| 0 <= j < nm.len() implies 50 <= #[trigger] nm[j] <= 122 by {
                assert(nm.len() == 7);
                if j == 0 {
                    assert(nm[j] == 97);
                } else if j == 1 {
                    assert(nm[j] == 114);
                } else if j == 2 {
                    assert(nm[j] == 103);
                } else if j == 3 {
                    assert(nm[j] == 111);
                } else if j == 4 {
                    assert(nm[j] == 110);
                } else if j == 5 {
                    assert(nm[j] == 50);
                } else {
                    assert(nm[j] == 105);
                }
            }
        },
        Variant::Argon2id => {
            assert forall|j: int| 0 <= j < nm.len() implies 50 <= #[trigger] nm[j] <= 122 by {
                assert(nm.len() == 8);
                if j == 0 {
                    assert(nm[j] == 97);
                } else if j == 1 {
                    assert(nm[j] == 114);
                } else if j == 2 {
                    assert(nm[j] == 103);
                } else if j == 3 {
                    assert(nm[j] == 111);
                } else if j == 4 {
                    assert(nm[j] == 110);
                } else if j == 5 {
                    assert(nm[j] == 50);
                } else if j == 6 {
                    assert(nm[j] == 105);
                } else {
                    assert(nm[j] == 100);
                }
            }
        },
    }
}

proof fn lemma_variant_names_distinct()
    ensures
        variant_name(Variant::Argon2d) != variant_name(Variant::Argon2i),
        variant_name(Variant::Argon2d) != variant_name(Variant::Argon2id),
        variant_name(Variant::Argon2i) != variant_name(Variant::Argon2id),
{
    assert(variant_name(Variant::Argon2d)[6] == 100);
    assert(variant_name(Variant::Argon2i)[6] == 105);
    assert(variant_name(Variant::Argon2d).len() == 7);
    assert(variant_name(Variant::Argon2id).len() == 8);
    assert(variant_name(Variant::Argon2i).len() == 7);
}

/// Round trip: decoding an encoded credential gives back exactly the
/// variant, version, memory cost, pass count, lane count, salt bytes and
/// tag bytes that were encoded — for every parameter set and every salt
/// and tag.
#[verifier::rlimit(100)]
#[verifier::spinoff_prover]
pub proof fn lemma_decode_inverts_encode(
    variant: Variant,
    version: Version,
    mem_cost: u32,
    time_cost: u32,
    lanes: u32,
    salt: Seq<u8>,
    tag: Seq<u8>,
)
    ensures
        spec_decode(spec_encoded(variant, version, mem_cost, time_cost, lanes, salt, tag))
            == Ok::<SpecDecoded, DecodingError>(
            SpecDecoded { variant, version, mem_cost, time_cost, lanes, salt, hash: tag },
        ),
{
    let s = spec_encoded(variant, version, mem_cost, time_cost, lanes, salt, tag);
    let name = variant_name(variant);
    let vd = dec_digits(version_code(version) as int);
    let md = dec_digits(mem_cost as int);
    let td = dec_digits(time_cost as int);
    let pd = dec_digits(lanes as int);
    let sb = spec_b64(salt);
    let tb = spec_b64(tag);
    let r5 = sb + seq![36u8] + tb;
    let r4 = seq![112u8, 61u8] + pd + seq![36u8] + r5;
    let r3 = seq![116u8, 61u8] + td + seq![44u8] + r4;
    let r2 = seq![109u8, 61u8] + md + seq![44u8] + r3;
    let r1 = seq![118u8, 61u8] + vd + seq![36u8] + r2;
    assert(s =~= seq![36u8] + name + seq![36u8] + r1);
    lemma_variant_name_no_delim(variant);
    lemma_variant_names_distinct();
    lemma_dec_ascii(version_code(version) as int);
    lemma_dec_ascii(mem_cost as int);
    lemma_dec_ascii(time_cost as int);
    lemma_dec_ascii(lanes as int);
    lemma_dec_roundtrip(version_code(version) as int);
    lemma_dec_roundtrip(mem_cost as int);
    lemma_dec_roundtrip(time_cost as int);
    lemma_dec_roundtrip(lanes as int);
    lemma_dec_len_u32(version_code(version) as int);
    lemma_dec_len_u32(mem_cost as int);
    lemma_dec_len_u32(time_cost as int);
    lemma_dec_len_u32(lanes as int);
    lemma_b64_ascii(salt);
    lemma_b64_ascii(tag);
    lemma_b64_roundtrip(salt);
    lemma_b64_roundtrip(tag);
    // the variant field
    assert(s[0] == 36);
    assert(s.skip(1) =~= name + seq![36u8] + r1);
    lemma_take_until_prefix(name, r1, 36);
    assert(parse_variant(s) == Ok::<(Variant, Seq<u8>), DecodingError>((variant, r1)));
    // the version field
    assert(r1[0] == 118 && r1[1] == 61);
    assert(r1.skip(2) =~= vd + seq![36u8] + r2);
    lemma_take_until_prefix(vd, r2, 36);
    assert(parse_num(r1, 118, 61, 36) == Ok::<(u32, Seq<u8>), DecodingError>(
        (version_code(version), r2),
    ));
    assert(parse_version(r1) == Ok::<(Version, Seq<u8>), DecodingError>((version, r2)));
    // the three cost fields
    assert(r2[0] == 109 && r2[1] == 61);
    assert(r2.skip(2) =~= md + seq![44u8] + r3);
    lemma_take_until_prefix(md, r3, 44);
    assert(parse_num(r2, 109, 61, 44) == Ok::<(u32, Seq<u8>), DecodingError>((mem_cost, r3)));
    assert(r3[0] == 116 && r3[1] == 61);
    assert(r3.skip(2) =~= td + seq![44u8] + r4);
    lemma_take_until_prefix(td, r4, 44);
    assert(parse_num(r3, 116, 61, 44) == Ok::<(u32, Seq<u8>), DecodingError>((time_cost, r4)));
    assert(r4[0] == 112 && r4[1] == 61);
    assert(r4.skip(2) =~= pd + seq![36u8] + r5);
    lemma_take_until_prefix(pd, r5, 36);
    assert(parse_num(r4, 112, 61, 36) == Ok::<(u32, Seq<u8>), DecodingError>((lanes, r5)));
    // salt and tag
    lemma_take_until_prefix(sb, tb, 36);
    assert(take_until(r5, 36) == Some((sb, tb)));
}


} // verus!
