//! Word-level primitives: wrapping 64-bit arithmetic, rotation, and the
//! multiply-augmented addition used by the mixing permutation.
use vstd::prelude::*;

verus! {

/// Addition of two 64-bit words modulo 2^64.
pub open spec fn wadd(x: u64, y: u64) -> u64 {
    vstd::wrapping::u64_specs::wrapping_add(x, y)
}

/// Rotation of a 64-bit word right by n bits (0 < n < 64).
pub open spec fn rotr(x: u64, n: u64) -> u64 {
    (x >> n) | (x << ((64u64 - n) as u64))
}

/// The low 32 bits of a word.
pub open spec fn lo32(x: u64) -> u64 {
    x & 0xffff_ffffu64
}

/// The multiply-augmented addition of the mixing permutation:
/// x + y + 2 * lo32(x) * lo32(y), all modulo 2^64.
pub open spec fn blamka(x: u64, y: u64) -> u64 {
    wadd(wadd(x, y), vstd::wrapping::u64_specs::wrapping_mul(2u64, vstd::wrapping::u64_specs::wrapping_mul(lo32(x), lo32(y))))
}

/// Byte k (0 <= k < 8) of a word, little endian.
pub open spec fn le_byte(w: u64, k: int) -> u8 {
    ((w >> ((8 * k) as u64)) & 0xffu64) as u8
}

/// The word read from eight bytes, little endian.
pub open spec fn le_word(s: Seq<u8>) -> u64
    recommends
        s.len() == 8,
{
    (s[0] as u64) | ((s[1] as u64) << 8u64) | ((s[2] as u64) << 16u64) | ((s[3] as u64) << 24u64)
        | ((s[4] as u64) << 32u64) | ((s[5] as u64) << 40u64) | ((s[6] as u64) << 48u64) | ((
    s[7] as u64) << 56u64)
}

/// The little-endian byte sequence of a sequence of words.
pub open spec fn words_to_bytes(ws: Seq<u64>) -> Seq<u8> {
    Seq::new(ws.len() * 8, |i: int| le_byte(ws[i / 8], i % 8))
}

/// n words read from the first 8n bytes, little endian.
pub open spec fn le_words(bytes: Seq<u8>, n: int) -> Seq<u64>
    recommends
        8 * n <= bytes.len(),
{
    Seq::new(n as nat, |i: int| le_word(bytes.subrange(8 * i, 8 * i + 8)))
}

/// n zero bytes.
pub open spec fn zero_bytes(n: int) -> Seq<u8> {
    Seq::new(n as nat, |i: int| 0u8)
}

/// The four little-endian bytes of a 32-bit value.
pub open spec fn le32(x: u32) -> Seq<u8> {
    seq![
        (x & 0xffu32) as u8,
        ((x >> 8u32) & 0xffu32) as u8,
        ((x >> 16u32) & 0xffu32) as u8,
        ((x >> 24u32) & 0xffu32) as u8,
    ]
}

pub proof fn lemma_and_ff_u64(x: u64)
    ensures
        x & 0xffu64 <= 0xff,
{
    assert(x & 0xffu64 <= 0xff) by (bit_vector);
}

pub proof fn lemma_and_ff_u32(x: u32)
    ensures
        x & 0xffu32 <= 0xff,
{
    assert(x & 0xffu32 <= 0xff) by (bit_vector);
}

/// Append the four little-endian bytes of a 32-bit value.
pub fn push_le32(out: &mut Vec<u8>, x: u32)
    ensures
        final(out)@ == old(out)@ + le32(x),
{
    proof {
        lemma_and_ff_u32(x);
        lemma_and_ff_u32(x >> 8);
        lemma_and_ff_u32(x >> 16);
        lemma_and_ff_u32(x >> 24);
    }
    out.push((x & 0xff) as u8);
    out.push(((x >> 8) & 0xff) as u8);
    out.push(((x >> 16) & 0xff) as u8);
    out.push(((x >> 24) & 0xff) as u8);
    proof {
        assert(out@ =~= old(out)@ + le32(x));
    }
}

/// Append the eight little-endian bytes of a word.
pub fn push_word_le(out: &mut Vec<u8>, w: u64)
    ensures
        final(out)@.len() == old(out)@.len() + 8,
        final(out)@ == old(out)@ + Seq::new(8, |k: int| le_byte(w, k)),
{
    let mut k: u64 = 0;
    while k < 8
        invariant
            k <= 8,
            out@.len() == old(out)@.len() + k,
            out@ == old(out)@ + Seq::new(k as nat, |j: int| le_byte(w, j)),
        decreases 8 - k,
    {
        let sh: u64 = 8 * k;
        proof {
            lemma_and_ff_u64(w >> sh);
        }
        out.push(((w >> sh) & 0xff) as u8);
        k = k + 1;
        proof {
            assert(out@ =~= old(out)@ + Seq::new(k as nat, |j: int| le_byte(w, j)));
        }
    }
}

/// Append a byte slice.
pub fn push_bytes(out: &mut Vec<u8>, s: &[u8])
    ensures
        final(out)@ == old(out)@ + s@,
{
    let mut i: usize = 0;
    while i < s.len()
        invariant
            i <= s@.len(),
            out@ == old(out)@ + s@.subrange(0, i as int),
        decreases s@.len() - i,
    {
        let b = s[i];
        out.push(b);
        i = i + 1;
        proof {
            assert(out@ =~= old(out)@ + s@.subrange(0, i as int));
        }
    }
    proof {
        assert(out@ =~= old(out)@ + s@);
    }
}

/// Read the word at the given byte offset, little endian.
pub fn word_at(bytes: &[u8], base: usize) -> (r: u64)
    requires
        base + 8 <= bytes@.len(),
    ensures
        r == le_word(bytes@.subrange(base as int, base as int + 8)),
{
    (bytes[base] as u64) | ((bytes[base + 1] as u64) << 8) | ((bytes[base + 2] as u64) << 16) | ((
    bytes[base + 3] as u64) << 24) | ((bytes[base + 4] as u64) << 32) | ((bytes[base + 5] as u64)
        << 40) | ((bytes[base + 6] as u64) << 48) | ((bytes[base + 7] as u64) << 56)
}

pub fn exec_wadd(x: u64, y: u64) -> (r: u64)
    ensures
        r == wadd(x, y),
{
    x.wrapping_add(y)
}

pub fn exec_rotr(x: u64, n: u64) -> (r: u64)
    requires
        0 < n < 64,
    ensures
        r == rotr(x, n),
{
    (x >> n) | (x << (64 - n))
}

pub fn exec_blamka(x: u64, y: u64) -> (r: u64)
    ensures
        r == blamka(x, y),
{
    let xl: u64 = x & 0xffff_ffff;
    let yl: u64 = y & 0xffff_ffff;
    let m: u64 = xl.wrapping_mul(yl);
    let m2: u64 = 2u64.wrapping_mul(m);
    x.wrapping_add(y).wrapping_add(m2)
}

} // verus!
