//! The 64-bit cryptographic digest used for initial seeding and
//! finalization, together with the variable-length construction built on
//! top of it.
use vstd::prelude::*;

use crate::words::{
    exec_rotr, exec_wadd, le32, le_byte, le_word, le_words, lemma_and_ff_u64, rotr, wadd,
    words_to_bytes, word_at, zero_bytes,
};

verus! {

pub const IV0: u64 = 0x6a09e667f3bcc908;

pub const IV1: u64 = 0xbb67ae8584caa73b;

pub const IV2: u64 = 0x3c6ef372fe94f82b;

pub const IV3: u64 = 0xa54ff53a5f1d36f1;

pub const IV4: u64 = 0x510e527fade682d1;

pub const IV5: u64 = 0x9b05688c2b3e6c1f;

pub const IV6: u64 = 0x1f83d9abfb41bd6b;

pub const IV7: u64 = 0x5be0cd19137e2179;

/// One quarter-round of the mixing function on the 16-word working vector:
/// positions a, b, c, d are mixed with the two message words x and y.
pub open spec fn spec_mix(v: Seq<u64>, a: int, b: int, c: int, d: int, x: u64, y: u64) -> Seq<
    u64,
> {
    let va = wadd(wadd(v[a], v[b]), x);
    let vd = rotr(v[d] ^ va, 32);
    let vc = wadd(v[c], vd);
    let vb = rotr(v[b] ^ vc, 24);
    let va2 = wadd(wadd(va, vb), y);
    let vd2 = rotr(vd ^ va2, 16);
    let vc2 = wadd(vc, vd2);
    let vb2 = rotr(vb ^ vc2, 63);
    v.update(a, va2).update(b, vb2).update(c, vc2).update(d, vd2)
}

/// A full round: eight quarter-rounds, the message words permuted by the
/// round's schedule s0..s15.
pub open spec fn spec_mix8(
    v: Seq<u64>, m: Seq<u64>,
    s0: int, s1: int, s2: int, s3: int, s4: int, s5: int, s6: int, s7: int,
    s8: int, s9: int, s10: int, s11: int, s12: int, s13: int, s14: int, s15: int,
) -> Seq<u64> {
    let v1 = spec_mix(v, 0, 4, 8, 12, m[s0], m[s1]);
    let v2 = spec_mix(v1, 1, 5, 9, 13, m[s2], m[s3]);
    let v3 = spec_mix(v2, 2, 6, 10, 14, m[s4], m[s5]);
    let v4 = spec_mix(v3, 3, 7, 11, 15, m[s6], m[s7]);
    let v5 = spec_mix(v4, 0, 5, 10, 15, m[s8], m[s9]);
    let v6 = spec_mix(v5, 1, 6, 11, 12, m[s10], m[s11]);
    let v7 = spec_mix(v6, 2, 7, 8, 13, m[s12], m[s13]);
    spec_mix(v7, 3, 4, 9, 14, m[s14], m[s15])
}

/// Round r of the digest's compression (0 <= r < 12). Rounds 10 and 11
/// reuse the schedules of rounds 0 and 1.
pub open spec fn spec_round(v: Seq<u64>, m: Seq<u64>, r: int) -> Seq<u64> {
    if r == 0 || r == 10 {
        spec_mix8(v, m, 0, 1, 2, 3, 4, 5, 6, 7, 8, 9, 10, 11, 12, 13, 14, 15)
    } else if r == 1 || r == 11 {
        spec_mix8(v, m, 14, 10, 4, 8, 9, 15, 13, 6, 1, 12, 0, 2, 11, 7, 5, 3)
    } else if r == 2 {
        spec_mix8(v, m, 11, 8, 12, 0, 5, 2, 15, 13, 10, 14, 3, 6, 7, 1, 9, 4)
    } else if r == 3 {
        spec_mix8(v, m, 7, 9, 3, 1, 13, 12, 11, 14, 2, 6, 5, 10, 4, 0, 15, 8)
    } else if r == 4 {
        spec_mix8(v, m, 9, 0, 5, 7, 2, 4, 10, 15, 14, 1, 11, 12, 6, 8, 3, 13)
    } else if r == 5 {
        spec_mix8(v, m, 2, 12, 6, 10, 0, 11, 8, 3, 4, 13, 7, 5, 15, 14, 1, 9)
    } else if r == 6 {
        spec_mix8(v, m, 12, 5, 1, 15, 14, 13, 4, 10, 0, 7, 6, 3, 9, 2, 8, 11)
    } else if r == 7 {
        spec_mix8(v, m, 13, 11, 7, 14, 12, 1, 3, 9, 5, 0, 15, 4, 8, 6, 2, 10)
    } else if r == 8 {
        spec_mix8(v, m, 6, 15, 14, 9, 11, 3, 0, 8, 12, 2, 13, 7, 1, 4, 10, 5)
    } else {
        spec_mix8(v, m, 10, 2, 8, 4, 7, 6, 1, 5, 15, 11, 9, 14, 3, 12, 13, 0)
    }
}

/// The first n rounds applied to the working vector.
pub open spec fn spec_rounds(v: Seq<u64>, m: Seq<u64>, n: int) -> Seq<u64>
    decreases n,
{
    if n <= 0 {
        v
    } else {
        spec_round(spec_rounds(v, m, n - 1), m, n - 1)
    }
}

/// The working vector at the start of a compression: the state, the eight
/// initialisation words, the byte counter folded into word 12, and word 14
/// inverted for the final block.
pub open spec fn spec_init_v(h: Seq<u64>, t: u64, last: bool) -> Seq<u64> {
    let v = seq![h[0], h[1], h[2], h[3], h[4], h[5], h[6], h[7], IV0, IV1, IV2, IV3, IV4, IV5, IV6, IV7];
    let v2 = v.update(12, v[12] ^ t);
    if last {
        v2.update(14, v2[14] ^ 0xffff_ffff_ffff_ffffu64)
    } else {
        v2
    }
}

/// The compression function: twelve rounds over the working vector, then
/// each state word combined with two halves of the vector.
pub open spec fn spec_compress(h: Seq<u64>, m: Seq<u64>, t: u64, last: bool) -> Seq<u64> {
    let vr = spec_rounds(spec_init_v(h, t, last), m, 12);
    Seq::new(8, |i: int| h[i] ^ vr[i] ^ vr[i + 8])
}

/// The initial state for a digest of outlen bytes, unkeyed.
pub open spec fn spec_init_h(outlen: nat) -> Seq<u64> {
    seq![IV0 ^ ((0x0101_0000 + outlen) as u64), IV1, IV2, IV3, IV4, IV5, IV6, IV7]
}

/// The input padded with zero bytes to a full 128-byte block.
pub open spec fn pad128(s: Seq<u8>) -> Seq<u8> {
    s + zero_bytes(128 - s.len())
}

/// The state after absorbing the rest of the message, `done` bytes having
/// been absorbed already. Every block but the last is full; the last one is
/// zero-padded and flagged final.
pub open spec fn spec_absorb(h: Seq<u64>, rest: Seq<u8>, done: nat) -> Seq<u64>
    decreases rest.len(),
{
    if rest.len() > 128 {
        spec_absorb(
            spec_compress(h, le_words(rest.take(128), 16), (done + 128) as u64, false),
            rest.skip(128),
            (done + 128) as nat,
        )
    } else {
        spec_compress(h, le_words(pad128(rest), 16), (done + rest.len()) as u64, true)
    }
}

/// The digest of a message: 1 to 64 output bytes.
pub open spec fn spec_blake2b(input: Seq<u8>, outlen: nat) -> Seq<u8>
    recommends
        1 <= outlen <= 64,
{
    words_to_bytes(spec_absorb(spec_init_h(outlen), input, 0)).take(outlen as int)
}

proof fn lemma_absorb_len(h: Seq<u64>, rest: Seq<u8>, done: nat)
    ensures
        spec_absorb(h, rest, done).len() == 8,
    decreases rest.len(),
{
    if rest.len() > 128 {
        lemma_absorb_len(
            spec_compress(h, le_words(rest.take(128), 16), (done + 128) as u64, false),
            rest.skip(128),
            (done + 128) as nat,
        );
    }
}

fn mix(v: &mut Vec<u64>, a: usize, b: usize, c: usize, d: usize, x: u64, y: u64)
    requires
        old(v)@.len() == 16,
        a < 16,
        b < 16,
        c < 16,
        d < 16,
    ensures
        final(v)@.len() == 16,
        final(v)@ == spec_mix(old(v)@, a as int, b as int, c as int, d as int, x, y),
{
    let va = exec_wadd(exec_wadd(v[a], v[b]), x);
    let vd = exec_rotr(v[d] ^ va, 32);
    let vc = exec_wadd(v[c], vd);
    let vb = exec_rotr(v[b] ^ vc, 24);
    let va2 = exec_wadd(exec_wadd(va, vb), y);
    let vd2 = exec_rotr(vd ^ va2, 16);
    let vc2 = exec_wadd(vc, vd2);
    let vb2 = exec_rotr(vb ^ vc2, 63);
    v[a] = va2;
    v[b] = vb2;
    v[c] = vc2;
    v[d] = vd2;
    proof {
        assert(v@ =~= spec_mix(old(v)@, a as int, b as int, c as int, d as int, x, y));
    }
}

fn round(v: &mut Vec<u64>, m: &Vec<u64>, r: usize)
    requires
        old(v)@.len() == 16,
        m@.len() == 16,
        r < 12,
    ensures
        final(v)@.len() == 16,
        final(v)@ == spec_round(old(v)@, m@, r as int),
{
    if r == 0 || r == 10 {
        mix(v, 0, 4, 8, 12, m[0], m[1]);
        mix(v, 1, 5, 9, 13, m[2], m[3]);
        mix(v, 2, 6, 10, 14, m[4], m[5]);
        mix(v, 3, 7, 11, 15, m[6], m[7]);
        mix(v, 0, 5, 10, 15, m[8], m[9]);
        mix(v, 1, 6, 11, 12, m[10], m[11]);
        mix(v, 2, 7, 8, 13, m[12], m[13]);
        mix(v, 3, 4, 9, 14, m[14], m[15]);
    } else if r == 1 || r == 11 {
        mix(v, 0, 4, 8, 12, m[14], m[10]);
        mix(v, 1, 5, 9, 13, m[4], m[8]);
        mix(v, 2, 6, 10, 14, m[9], m[15]);
        mix(v, 3, 7, 11, 15, m[13], m[6]);
        mix(v, 0, 5, 10, 15, m[1], m[12]);
        mix(v, 1, 6, 11, 12, m[0], m[2]);
        mix(v, 2, 7, 8, 13, m[11], m[7]);
        mix(v, 3, 4, 9, 14, m[5], m[3]);
    } else if r == 2 {
        mix(v, 0, 4, 8, 12, m[11], m[8]);
        mix(v, 1, 5, 9, 13, m[12], m[0]);
        mix(v, 2, 6, 10, 14, m[5], m[2]);
        mix(v, 3, 7, 11, 15, m[15], m[13]);
        mix(v, 0, 5, 10, 15, m[10], m[14]);
        mix(v, 1, 6, 11, 12, m[3], m[6]);
        mix(v, 2, 7, 8, 13, m[7], m[1]);
        mix(v, 3, 4, 9, 14, m[9], m[4]);
    } else if r == 3 {
        mix(v, 0, 4, 8, 12, m[7], m[9]);
        mix(v, 1, 5, 9, 13, m[3], m[1]);
        mix(v, 2, 6, 10, 14, m[13], m[12]);
        mix(v, 3, 7, 11, 15, m[11], m[14]);
        mix(v, 0, 5, 10, 15, m[2], m[6]);
        mix(v, 1, 6, 11, 12, m[5], m[10]);
        mix(v, 2, 7, 8, 13, m[4], m[0]);
        mix(v, 3, 4, 9, 14, m[15], m[8]);
    } else if r == 4 {
        mix(v, 0, 4, 8, 12, m[9], m[0]);
        mix(v, 1, 5, 9, 13, m[5], m[7]);
        mix(v, 2, 6, 10, 14, m[2], m[4]);
        mix(v, 3, 7, 11, 15, m[10], m[15]);
        mix(v, 0, 5, 10, 15, m[14], m[1]);
        mix(v, 1, 6, 11, 12, m[11], m[12]);
        mix(v, 2, 7, 8, 13, m[6], m[8]);
        mix(v, 3, 4, 9, 14, m[3], m[13]);
    } else if r == 5 {
        mix(v, 0, 4, 8, 12, m[2], m[12]);
        mix(v, 1, 5, 9, 13, m[6], m[10]);
        mix(v, 2, 6, 10, 14, m[0], m[11]);
        mix(v, 3, 7, 11, 15, m[8], m[3]);
        mix(v, 0, 5, 10, 15, m[4], m[13]);
        mix(v, 1, 6, 11, 12, m[7], m[5]);
        mix(v, 2, 7, 8, 13, m[15], m[14]);
        mix(v, 3, 4, 9, 14, m[1], m[9]);
    } else if r == 6 {
        mix(v, 0, 4, 8, 12, m[12], m[5]);
        mix(v, 1, 5, 9, 13, m[1], m[15]);
        mix(v, 2, 6, 10, 14, m[14], m[13]);
        mix(v, 3, 7, 11, 15, m[4], m[10]);
        mix(v, 0, 5, 10, 15, m[0], m[7]);
        mix(v, 1, 6, 11, 12, m[6], m[3]);
        mix(v, 2, 7, 8, 13, m[9], m[2]);
        mix(v, 3, 4, 9, 14, m[8], m[11]);
    } else if r == 7 {
        mix(v, 0, 4, 8, 12, m[13], m[11]);
        mix(v, 1, 5, 9, 13, m[7], m[14]);
        mix(v, 2, 6, 10, 14, m[12], m[1]);
        mix(v, 3, 7, 11, 15, m[3], m[9]);
        mix(v, 0, 5, 10, 15, m[5], m[0]);
        mix(v, 1, 6, 11, 12, m[15], m[4]);
        mix(v, 2, 7, 8, 13, m[8], m[6]);
        mix(v, 3, 4, 9, 14, m[2], m[10]);
    } else if r == 8 {
        mix(v, 0, 4, 8, 12, m[6], m[15]);
        mix(v, 1, 5, 9, 13, m[14], m[9]);
        mix(v, 2, 6, 10, 14, m[11], m[3]);
        mix(v, 3, 7, 11, 15, m[0], m[8]);
        mix(v, 0, 5, 10, 15, m[12], m[2]);
        mix(v, 1, 6, 11, 12, m[13], m[7]);
        mix(v, 2, 7, 8, 13, m[1], m[4]);
        mix(v, 3, 4, 9, 14, m[10], m[5]);
    } else {
        mix(v, 0, 4, 8, 12, m[10], m[2]);
        mix(v, 1, 5, 9, 13, m[8], m[4]);
        mix(v, 2, 6, 10, 14, m[7], m[6]);
        mix(v, 3, 7, 11, 15, m[1], m[5]);
        mix(v, 0, 5, 10, 15, m[15], m[11]);
        mix(v, 1, 6, 11, 12, m[9], m[14]);
        mix(v, 2, 7, 8, 13, m[3], m[12]);
        mix(v, 3, 4, 9, 14, m[13], m[0]);
    }
}

fn compress(h: &mut Vec<u64>, m: &Vec<u64>, t: u64, last: bool)
    requires
        old(h)@.len() == 8,
        m@.len() == 16,
    ensures
        final(h)@.len() == 8,
        final(h)@ == spec_compress(old(h)@, m@, t, last),
{
    let mut v: Vec<u64> = Vec::new();
    let mut i: usize = 0;
    while i < 8
        invariant
            i <= 8,
            h@ == old(h)@,
            h@.len() == 8,
            v@.len() == i,
            forall|j: int| 0 <= j < i ==> v@[j] == h@[j],
        decreases 8 - i,
    {
        v.push(h[i]);
        i = i + 1;
    }
    v.push(IV0);
    v.push(IV1);
    v.push(IV2);
    v.push(IV3);
    v.push(IV4);
    v.push(IV5);
    v.push(IV6);
    v.push(IV7);
    v[12] = v[12] ^ t;
    if last {
        v[14] = v[14] ^ 0xffff_ffff_ffff_ffffu64;
    }
    proof {
        assert(v@ =~= spec_init_v(h@, t, last));
    }
    let ghost v0 = v@;
    let mut r: usize = 0;
    while r < 12
        invariant
            r <= 12,
            h@ == old(h)@,
            h@.len() == 8,
            m@.len() == 16,
            v@.len() == 16,
            v@ == spec_rounds(v0, m@, r as int),
        decreases 12 - r,
    {
        round(&mut v, m, r);
        r = r + 1;
    }
    let mut i: usize = 0;
    while i < 8
        invariant
            i <= 8,
            h@.len() == 8,
            v@.len() == 16,
            v@ == spec_rounds(v0, m@, 12),
            forall|j: int| 0 <= j < i ==> h@[j] == (old(h)@[j] ^ v@[j] ^ v@[j + 8]),
            forall|j: int| i <= j < 8 ==> h@[j] == old(h)@[j],
        decreases 8 - i,
    {
        h[i] = h[i] ^ v[i] ^ v[i + 8];
        i = i + 1;
    }
    proof {
        assert(h@ =~= spec_compress(old(h)@, m@, t, last));
    }
}

/// The 16 words of the 128-byte chunk of `input` that starts at `offset`;
/// `count` bytes are real, the rest zero padding.
fn load_chunk(input: &[u8], offset: usize, count: usize) -> (m: Vec<u64>)
    requires
        offset + count <= input@.len(),
        count <= 128,
    ensures
        m@.len() == 16,
        m@ == le_words(pad128(input@.subrange(offset as int, offset as int + count as int)), 16),
{
    let n = input.len();
    let mut buf: Vec<u8> = Vec::new();
    let mut i: usize = 0;
    while i < count
        invariant
            i <= count,
            offset + count <= n,
            n == input@.len(),
            buf@ == input@.subrange(offset as int, offset as int + i as int),
        decreases count - i,
    {
        let b = input[offset + i];
        buf.push(b);
        i = i + 1;
        proof {
            assert(buf@ =~= input@.subrange(offset as int, offset as int + i as int));
        }
    }
    proof {
        assert(buf@.subrange(0, count as int) =~= buf@);
    }
    while buf.len() < 128
        invariant
            buf@.len() >= count,
            buf@.len() <= 128,
            buf@.subrange(0, count as int) == input@.subrange(
                offset as int,
                offset as int + count as int,
            ),
            forall|j: int| count <= j < buf@.len() ==> buf@[j] == 0u8,
        decreases 128 - buf@.len(),
    {
        buf.push(0u8);
        proof {
            assert(buf@.subrange(0, count as int) =~= input@.subrange(
                offset as int,
                offset as int + count as int,
            ));
        }
    }
    proof {
        assert(buf@ =~= pad128(input@.subrange(offset as int, offset as int + count as int)));
    }
    let mut m: Vec<u64> = Vec::new();
    let mut j: usize = 0;
    while j < 16
        invariant
            j <= 16,
            buf@.len() == 128,
            m@.len() == j,
            forall|k: int|
                0 <= k < j ==> m@[k] == le_word(buf@.subrange(8 * k, 8 * k + 8)),
        decreases 16 - j,
    {
        let w = word_at(buf.as_slice(), 8 * j);
        m.push(w);
        j = j + 1;
    }
    proof {
        assert(m@ =~= le_words(buf@, 16));
    }
    m
}

/// A digest is exactly as long as requested.
pub proof fn lemma_blake2b_len(input: Seq<u8>, outlen: nat)
    requires
        1 <= outlen <= 64,
    ensures
        spec_blake2b(input, outlen).len() == outlen,
{
    lemma_absorb_len(spec_init_h(outlen), input, 0);
}

proof fn lemma_h_prime_rest_len(prev: Seq<u8>, rem: nat)
    requires
        1 <= rem,
    ensures
        spec_h_prime_rest(prev, rem).len() == rem,
    decreases rem,
{
    if rem <= 64 {
        lemma_blake2b_len(prev, rem);
    } else {
        let vi = spec_blake2b(prev, 64);
        lemma_blake2b_len(prev, 64);
        lemma_h_prime_rest_len(vi, (rem - 32) as nat);
    }
}

/// The variable-length hash is exactly as long as requested.
pub proof fn lemma_h_prime_len(input: Seq<u8>, outlen: nat)
    requires
        4 <= outlen,
    ensures
        spec_h_prime(input, outlen).len() == outlen,
{
    let framed = le32(outlen as u32) + input;
    if outlen <= 64 {
        lemma_blake2b_len(framed, outlen);
    } else {
        lemma_blake2b_len(framed, 64);
        lemma_h_prime_rest_len(spec_blake2b(framed, 64), (outlen - 32) as nat);
    }
}

proof fn lemma_absorb_step(h: Seq<u64>, input: Seq<u8>, offset: nat)
    requires
        offset + 128 < input.len(),
    ensures
        spec_absorb(h, input.skip(offset as int), offset) == spec_absorb(
            spec_compress(
                h,
                le_words(pad128(input.subrange(offset as int, offset as int + 128)), 16),
                (offset + 128) as u64,
                false,
            ),
            input.skip(offset as int + 128),
            (offset + 128) as nat,
        ),
{
    let rest = input.skip(offset as int);
    assert(rest.take(128) =~= input.subrange(offset as int, offset as int + 128));
    assert(pad128(rest.take(128)) =~= rest.take(128));
    assert(rest.skip(128) =~= input.skip(offset as int + 128));
}

/// The digest of `input`, `outlen` bytes long (1 to 64).
#[verifier::rlimit(60)]
pub fn blake2b(input: &[u8], outlen: usize) -> (r: Vec<u8>)
    requires
        1 <= outlen <= 64,
        input@.len() < 0x1000_0000_0000_0000,
    ensures
        r@ == spec_blake2b(input@, outlen as nat),
        r@.len() == outlen,
{
    let mut h: Vec<u64> = Vec::new();
    h.push(IV0 ^ (0x0101_0000u64 + outlen as u64));
    h.push(IV1);
    h.push(IV2);
    h.push(IV3);
    h.push(IV4);
    h.push(IV5);
    h.push(IV6);
    h.push(IV7);
    proof {
        assert(h@ =~= spec_init_h(outlen as nat));
    }
    let ghost h0 = h@;
    proof {
        assert(input@.skip(0) =~= input@);
    }
    let mut offset: usize = 0;
    while input.len() - offset > 128
        invariant
            offset <= input@.len(),
            input@.len() < 0x1000_0000_0000_0000,
            h@.len() == 8,
            spec_absorb(h0, input@, 0) == spec_absorb(h@, input@.skip(offset as int), offset as nat),
        decreases input@.len() - offset,
    {
        let m = load_chunk(input, offset, 128);
        proof {
            lemma_absorb_step(h@, input@, offset as nat);
        }
        compress(&mut h, &m, (offset + 128) as u64, false);
        offset = offset + 128;
    }
    let count = input.len() - offset;
    let m = load_chunk(input, offset, count);
    proof {
        assert(input@.skip(offset as int) =~= input@.subrange(
            offset as int,
            offset as int + count as int,
        ));
    }
    compress(&mut h, &m, input.len() as u64, true);
    let mut out: Vec<u8> = Vec::new();
    let mut i: usize = 0;
    while i < outlen
        invariant
            i <= outlen,
            outlen <= 64,
            h@.len() == 8,
            out@.len() == i,
            forall|j: int| 0 <= j < i ==> out@[j] == le_byte(h@[j / 8], j % 8),
        decreases outlen - i,
    {
        let w = h[i / 8];
        let sh: u64 = 8 * ((i % 8) as u64);
        proof {
            lemma_and_ff_u64(w >> sh);
        }
        out.push(((w >> sh) & 0xff) as u8);
        i = i + 1;
    }
    proof {
        lemma_absorb_len(h0, input@, 0);
        assert(out@ =~= spec_blake2b(input@, outlen as nat));
    }
    out
}

/// The variable-length construction: chained digests for outputs longer
/// than 64 bytes. `prev` is the previous 64-byte link; `rem` bytes are
/// still owed.
pub open spec fn spec_h_prime_rest(prev: Seq<u8>, rem: nat) -> Seq<u8>
    decreases rem,
{
    if rem <= 64 {
        spec_blake2b(prev, rem)
    } else {
        let vi = spec_blake2b(prev, 64);
        vi.take(32) + spec_h_prime_rest(vi, (rem - 32) as nat)
    }
}

/// The variable-length hash: exactly `outlen` bytes derived from the
/// input, framed by the little-endian output length.
pub open spec fn spec_h_prime(input: Seq<u8>, outlen: nat) -> Seq<u8>
    recommends
        4 <= outlen,
{
    let framed = le32(outlen as u32) + input;
    if outlen <= 64 {
        spec_blake2b(framed, outlen)
    } else {
        let v1 = spec_blake2b(framed, 64);
        v1.take(32) + spec_h_prime_rest(v1, (outlen - 32) as nat)
    }
}

/// The variable-length hash of `input`, `outlen` bytes long.
pub fn h_prime(input: &[u8], outlen: u32) -> (r: Vec<u8>)
    requires
        4 <= outlen,
        input@.len() < 0xffff_ffff_ffff,
    ensures
        r@ == spec_h_prime(input@, outlen as nat),
{
    let mut framed: Vec<u8> = Vec::new();
    crate::words::push_le32(&mut framed, outlen);
    crate::words::push_bytes(&mut framed, input);
    proof {
        assert(framed@ =~= le32(outlen) + input@);
    }
    if outlen <= 64 {
        let r = blake2b(framed.as_slice(), outlen as usize);
        return r;
    }
    let mut v = blake2b(framed.as_slice(), 64);
    let mut out: Vec<u8> = Vec::new();
    let mut k: usize = 0;
    while k < 32
        invariant
            k <= 32,
            v@.len() == 64,
            out@.len() == k,
            out@ == v@.take(k as int),
        decreases 32 - k,
    {
        let b = v[k];
        out.push(b);
        k = k + 1;
        proof {
            assert(out@ =~= v@.take(k as int));
        }
    }
    let mut rem: u32 = outlen - 32;
    while rem > 64
        invariant
            rem >= 33,
            v@.len() == 64,
            spec_h_prime(input@, outlen as nat) == out@ + spec_h_prime_rest(v@, rem as nat),
        decreases rem,
    {
        let vn = blake2b(v.as_slice(), 64);
        let ghost out_before = out@;
        let mut k: usize = 0;
        while k < 32
            invariant
                k <= 32,
                vn@.len() == 64,
                out@.len() == out_before.len() + k,
                out@ == out_before + vn@.take(k as int),
            decreases 32 - k,
        {
            let b = vn[k];
            out.push(b);
            k = k + 1;
            proof {
                assert(out@ =~= out_before + vn@.take(k as int));
            }
        }
        v = vn;
        rem = rem - 32;
    }
    let last = blake2b(v.as_slice(), rem as usize);
    crate::words::push_bytes(&mut out, last.as_slice());
    out
}

} // verus!
