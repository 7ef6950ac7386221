//! The fill engine: initial seeding, the pass/slice/lane schedule, the
//! pseudo-random addressing, and finalization. The whole computation is
//! modelled by the spec functions here, ending in `spec_tag`; the exec
//! engine is proved to compute exactly that model.
use vstd::prelude::*;

use vstd::arithmetic::div_mod::{lemma_mod_bound, lemma_multiply_divide_lt};

use crate::b2::{blake2b, h_prime, spec_blake2b, spec_h_prime};
use crate::block::{zero_block_words, xor_words, Block, QWORDS_IN_BLOCK};
use crate::compress::{g_block, spec_g};
use crate::context::Context;
use crate::memory::Memory;
use crate::result::Argon2Result;
use crate::variant::{variant_code, Variant};
use crate::version::{version_code, Version};
use crate::words::{le32, le_word, le_words, push_bytes, push_le32, words_to_bytes, word_at};

verus! {

/// One block coordinate being computed: pass, lane, slice, and index
/// within the segment.
#[derive(Clone, Copy, Debug)]
pub struct Position {
    pub pass: u32,
    pub lane: u32,
    pub slice: u32,
    pub index: u32,
}

/// The mathematical parameters of one hashing operation. The thread mode
/// and the provenance recorder are deliberately absent: the tag is a
/// function of these fields alone.
pub ghost struct Params {
    pub variant: Variant,
    pub version: Version,
    pub hash_length: u32,
    pub mem_cost: u32,
    pub lanes: int,
    pub segment_length: int,
    pub lane_length: int,
    pub memory_blocks: int,
    pub time_cost: int,
    pub pwd: Seq<u8>,
    pub salt: Seq<u8>,
    pub secret: Seq<u8>,
    pub ad: Seq<u8>,
}

/// The parameters a well-formed context denotes.
pub open spec fn params_of(ctx: Context) -> Params {
    Params {
        variant: ctx.config.variant,
        version: ctx.config.version,
        hash_length: ctx.config.hash_length,
        mem_cost: ctx.config.mem_cost,
        lanes: ctx.config.lanes as int,
        segment_length: ctx.segment_length as int,
        lane_length: ctx.lane_length as int,
        memory_blocks: ctx.memory_blocks as int,
        time_cost: ctx.config.time_cost as int,
        pwd: ctx.pwd@,
        salt: ctx.salt@,
        secret: ctx.config.secret@,
        ad: ctx.config.ad@,
    }
}

/// The well-formedness a parameter set inherits from a valid context.
pub open spec fn params_wf(p: Params) -> bool {
    &&& 1 <= p.lanes <= 0xffff_ffff
    &&& 2 <= p.segment_length
    &&& p.lane_length == 4 * p.segment_length
    &&& p.memory_blocks == p.lanes * p.lane_length
    &&& p.memory_blocks <= 0xffff_ffff
    &&& 1 <= p.time_cost <= 0xffff_ffff
    &&& 4 <= p.hash_length
    &&& p.pwd.len() <= 0xffff_ffff
    &&& p.salt.len() <= 0xffff_ffff
    &&& p.secret.len() <= 0xffff_ffff
    &&& p.ad.len() <= 0xffff_ffff
}

/// The 64-byte initial digest over the framed parameters and inputs.
pub open spec fn spec_h0(p: Params) -> Seq<u8> {
    let framed = le32(p.lanes as u32) + le32(p.hash_length) + le32(p.mem_cost) + le32(
        p.time_cost as u32,
    ) + le32(version_code(p.version)) + le32(variant_code(p.variant) as u32) + le32(
        p.pwd.len() as u32,
    ) + p.pwd + le32(p.salt.len() as u32) + p.salt + le32(p.secret.len() as u32) + p.secret + le32(
        p.ad.len() as u32,
    ) + p.ad;
    spec_blake2b(framed, 64)
}

/// The seed block in column `col` (0 or 1) of a lane: the 1024-byte
/// expansion of the initial digest framed with the column and lane.
pub open spec fn spec_seed_block(h0: Seq<u8>, lane: int, col: int) -> Seq<u64> {
    le_words(spec_h_prime(h0 + le32(col as u32) + le32(lane as u32), 1024), 128)
}

/// The all-zero memory.
pub open spec fn spec_zero_memory(p: Params) -> Seq<Seq<u64>> {
    Seq::new(p.memory_blocks as nat, |k: int| zero_block_words())
}

/// The memory with the first two columns of the first l lanes seeded.
pub open spec fn spec_seeded_upto(p: Params, h0: Seq<u8>, l: int) -> Seq<Seq<u64>>
    decreases l,
{
    if l <= 0 {
        spec_zero_memory(p)
    } else {
        spec_seeded_upto(p, h0, l - 1).update(
            (l - 1) * p.lane_length,
            spec_seed_block(h0, l - 1, 0),
        ).update((l - 1) * p.lane_length + 1, spec_seed_block(h0, l - 1, 1))
    }
}

/// The memory before the fill starts: columns 0 and 1 of every lane
/// seeded, everything else zero.
pub open spec fn spec_initial_memory(p: Params) -> Seq<Seq<u64>> {
    spec_seeded_upto(p, spec_h0(p), p.lanes)
}

/// Whether a position uses data-independent addressing.
pub open spec fn spec_independent(variant: Variant, pass: int, slice: int) -> bool {
    variant == Variant::Argon2i || (variant == Variant::Argon2id && pass == 0 && slice < 2)
}

/// The input block of the address generator: the position's coordinates,
/// the geometry, and the counter, in the first seven words.
pub open spec fn spec_addr_input(p: Params, pass: int, lane: int, slice: int, ctr: int) -> Seq<
    u64,
> {
    zero_block_words().update(0, pass as u64).update(1, lane as u64).update(2, slice as u64).update(
        3,
        p.memory_blocks as u64,
    ).update(4, p.time_cost as u64).update(5, variant_code(p.variant)).update(6, ctr as u64)
}

/// The ctr-th address block of a segment: the compression function applied
/// twice to the address input, against the zero block.
pub open spec fn spec_addr_block(p: Params, pass: int, lane: int, slice: int, ctr: int) -> Seq<
    u64,
> {
    spec_g(zero_block_words(), spec_g(zero_block_words(), spec_addr_input(p, pass, lane, slice, ctr)))
}

/// The size of the window of candidate reference columns.
pub open spec fn spec_ref_area(
    p: Params,
    pass: int,
    slice: int,
    index: int,
    same_lane: bool,
) -> int {
    if pass == 0 {
        if slice == 0 {
            index - 1
        } else if same_lane {
            slice * p.segment_length + index - 1
        } else {
            slice * p.segment_length + (if index == 0 {
                -1
            } else {
                0
            })
        }
    } else {
        if same_lane {
            p.lane_length - p.segment_length + index - 1
        } else {
            p.lane_length - p.segment_length + (if index == 0 {
                -1
            } else {
                0
            })
        }
    }
}

/// The reference column: the 32-bit value j1 is squared and scaled so that
/// the choice is biased toward recent blocks, then the window is anchored
/// after the current segment for later passes.
pub open spec fn spec_index_alpha(
    p: Params,
    pass: int,
    slice: int,
    index: int,
    j1: int,
    same_lane: bool,
) -> int {
    let area = spec_ref_area(p, pass, slice, index, same_lane);
    let rel = (j1 * j1) / 0x1_0000_0000;
    let pos = area - 1 - ((area * rel) / 0x1_0000_0000);
    let start = if pass != 0 && slice != 3 {
        (slice + 1) * p.segment_length
    } else {
        0
    };
    (start + pos) % p.lane_length
}

/// The first column a segment fills: the first two columns of the whole
/// matrix are pre-seeded.
pub open spec fn spec_seg_start(pass: int, slice: int) -> int {
    if pass == 0 && slice == 0 {
        2
    } else {
        0
    }
}

/// The pseudo-random word that steers position i of a segment: a word of
/// the current address block under independent addressing, the first word
/// of the previous block otherwise.
pub open spec fn spec_prand(
    p: Params,
    mem: Seq<Seq<u64>>,
    pass: int,
    lane: int,
    slice: int,
    i: int,
) -> u64 {
    if spec_independent(p.variant, pass, slice) {
        spec_addr_block(p, pass, lane, slice, i / 128 + 1)[i % 128]
    } else {
        let col = slice * p.segment_length + i;
        let prev = if col == 0 {
            p.lane_length - 1
        } else {
            col - 1
        };
        mem[lane * p.lane_length + prev][0]
    }
}

/// One fill step: the block at (lane, slice * segment_length + i) is
/// computed from its previous block and the referenced block, and, in
/// version 0x13 passes after the first, combined with the old content.
pub open spec fn spec_step(
    p: Params,
    mem: Seq<Seq<u64>>,
    pass: int,
    lane: int,
    slice: int,
    i: int,
) -> Seq<Seq<u64>> {
    let col = slice * p.segment_length + i;
    let prev = if col == 0 {
        p.lane_length - 1
    } else {
        col - 1
    };
    let pr = spec_prand(p, mem, pass, lane, slice, i);
    let ref_lane = if pass == 0 && slice == 0 {
        lane
    } else {
        ((pr as int) / 0x1_0000_0000) % p.lanes
    };
    let j1 = (pr as int) % 0x1_0000_0000;
    let ref_col = spec_index_alpha(p, pass, slice, i, j1, ref_lane == lane);
    let newb = spec_g(mem[lane * p.lane_length + prev], mem[ref_lane * p.lane_length + ref_col]);
    let fin = if p.version == Version::Version13 && pass > 0 {
        xor_words(newb, mem[lane * p.lane_length + col])
    } else {
        newb
    };
    mem.update(lane * p.lane_length + col, fin)
}

/// The memory after the first i positions of a segment.
pub open spec fn spec_fill_seg_upto(
    p: Params,
    mem: Seq<Seq<u64>>,
    pass: int,
    lane: int,
    slice: int,
    i: int,
) -> Seq<Seq<u64>>
    decreases i,
{
    if i <= spec_seg_start(pass, slice) {
        mem
    } else {
        spec_step(
            p,
            spec_fill_seg_upto(p, mem, pass, lane, slice, i - 1),
            pass,
            lane,
            slice,
            i - 1,
        )
    }
}

/// The memory after the first l lanes of a slice, in lane order.
pub open spec fn spec_fill_slice_upto(
    p: Params,
    mem: Seq<Seq<u64>>,
    pass: int,
    slice: int,
    l: int,
) -> Seq<Seq<u64>>
    decreases l,
{
    if l <= 0 {
        mem
    } else {
        spec_fill_seg_upto(
            p,
            spec_fill_slice_upto(p, mem, pass, slice, l - 1),
            pass,
            l - 1,
            slice,
            p.segment_length,
        )
    }
}

/// The memory after the first s slices of a pass.
pub open spec fn spec_fill_pass_upto(p: Params, mem: Seq<Seq<u64>>, pass: int, s: int) -> Seq<
    Seq<u64>,
>
    decreases s,
{
    if s <= 0 {
        mem
    } else {
        spec_fill_slice_upto(p, spec_fill_pass_upto(p, mem, pass, s - 1), pass, s - 1, p.lanes)
    }
}

/// The memory after the first t passes.
pub open spec fn spec_fill_upto(p: Params, mem: Seq<Seq<u64>>, t: int) -> Seq<Seq<u64>>
    decreases t,
{
    if t <= 0 {
        mem
    } else {
        spec_fill_pass_upto(p, spec_fill_upto(p, mem, t - 1), t - 1, 4)
    }
}

/// The memory when the whole fill is done.
pub open spec fn spec_filled_memory(p: Params) -> Seq<Seq<u64>> {
    spec_fill_upto(p, spec_initial_memory(p), p.time_cost)
}

/// The xor of the last column of the first l lanes (l >= 1).
pub open spec fn spec_xor_column_upto(p: Params, mem: Seq<Seq<u64>>, l: int) -> Seq<u64>
    decreases l,
{
    if l <= 1 {
        mem[p.lane_length - 1]
    } else {
        xor_words(
            spec_xor_column_upto(p, mem, l - 1),
            mem[(l - 1) * p.lane_length + p.lane_length - 1],
        )
    }
}

/// The tag: the variable-length hash of the xor of the last column of the
/// filled memory, hash_length bytes long.
#[verifier::opaque]
pub open spec fn spec_tag(p: Params) -> Seq<u8> {
    spec_h_prime(
        words_to_bytes(spec_xor_column_upto(p, spec_filled_memory(p), p.lanes)),
        p.hash_length as nat,
    )
}


/// The 128 words of a 1024-byte buffer.
fn block_words_from_bytes(bytes: &[u8]) -> (r: Vec<u64>)
    requires
        bytes@.len() == 1024,
    ensures
        r@.len() == 128,
        r@ == le_words(bytes@, 128),
{
    let mut out: Vec<u64> = Vec::new();
    let mut j: usize = 0;
    while j < 128
        invariant
            j <= 128,
            bytes@.len() == 1024,
            out@.len() == j,
            forall|k: int| 0 <= k < j ==> out@[k] == le_word(bytes@.subrange(8 * k, 8 * k + 8)),
        decreases 128 - j,
    {
        let w = word_at(bytes, 8 * j);
        out.push(w);
        j = j + 1;
    }
    proof {
        assert(out@ =~= le_words(bytes@, 128));
    }
    out
}

/// The 64-byte initial digest of a context.
fn initial_hash(ctx: &Context) -> (r: Vec<u8>)
    requires
        ctx.wf(),
    ensures
        r@ == spec_h0(params_of(*ctx)),
        r@.len() == 64,
{
    let mut buf: Vec<u8> = Vec::new();
    push_le32(&mut buf, ctx.config.lanes);
    push_le32(&mut buf, ctx.config.hash_length);
    push_le32(&mut buf, ctx.config.mem_cost);
    push_le32(&mut buf, ctx.config.time_cost);
    push_le32(&mut buf, ctx.config.version.as_u32());
    let vc = ctx.config.variant.as_u64();
    push_le32(&mut buf, vc as u32);
    push_le32(&mut buf, ctx.pwd.len() as u32);
    push_bytes(&mut buf, ctx.pwd);
    push_le32(&mut buf, ctx.salt.len() as u32);
    push_bytes(&mut buf, ctx.salt);
    push_le32(&mut buf, ctx.config.secret.len() as u32);
    push_bytes(&mut buf, ctx.config.secret);
    push_le32(&mut buf, ctx.config.ad.len() as u32);
    push_bytes(&mut buf, ctx.config.ad);
    proof {
        let p = params_of(*ctx);
        assert(buf@ =~= le32(p.lanes as u32) + le32(p.hash_length) + le32(p.mem_cost) + le32(
            p.time_cost as u32,
        ) + le32(version_code(p.version)) + le32(variant_code(p.variant) as u32) + le32(
            p.pwd.len() as u32,
        ) + p.pwd + le32(p.salt.len() as u32) + p.salt + le32(p.secret.len() as u32) + p.secret
            + le32(p.ad.len() as u32) + p.ad);
    }
    blake2b(buf.as_slice(), 64)
}

/// Compute the seed block of one lane and column (0 or 1).
#[verifier::rlimit(100)]
fn seed_block_for(h0: &Vec<u8>, l: u32, col: u32) -> (b: Block)
    requires
        h0@.len() == 64,
        col <= 1,
    ensures
        b.wf(),
        b@ == spec_seed_block(h0@, l as int, col as int),
{
    let mut buf: Vec<u8> = Vec::new();
    push_bytes(&mut buf, h0.as_slice());
    push_le32(&mut buf, col);
    push_le32(&mut buf, l);
    proof {
        assert(buf@ =~= h0@ + le32(col) + le32(l));
        crate::b2::lemma_h_prime_len(buf@, 1024);
    }
    let hb = h_prime(buf.as_slice(), 1024);
    let w = block_words_from_bytes(hb.as_slice());
    Block::from_words(w)
}

/// Compute and store the two seed blocks of one lane.
fn seed_lane(ctx: &Context, h0: &Vec<u8>, l: u32, memory: &mut Memory)
    requires
        ctx.wf(),
        h0@.len() == 64,
        (l as int) < ctx.config.lanes as int,
        old(memory).wf(),
        old(memory).spec_rows() == ctx.config.lanes as int,
        old(memory).spec_cols() == ctx.lane_length as int,
    ensures
        final(memory).wf(),
        final(memory).spec_rows() == old(memory).spec_rows(),
        final(memory).spec_cols() == old(memory).spec_cols(),
        final(memory)@ == old(memory)@.update(
            (l as int) * (ctx.lane_length as int),
            spec_seed_block(h0@, l as int, 0),
        ).update(
            (l as int) * (ctx.lane_length as int) + 1,
            spec_seed_block(h0@, l as int, 1),
        ),
{
    let b0 = seed_block_for(h0, l, 0);
    memory.set_block(l, 0, b0);
    let b1 = seed_block_for(h0, l, 1);
    memory.set_block(l, 1, b1);
}

/// Write the two seed blocks of every lane into the zeroed memory.
#[verifier::rlimit(100)]
#[verifier::spinoff_prover]
pub fn initialize(ctx: &Context, memory: &mut Memory)
    requires
        ctx.wf(),
        old(memory).wf(),
        old(memory).spec_rows() == ctx.config.lanes as int,
        old(memory).spec_cols() == ctx.lane_length as int,
        old(memory)@ == spec_zero_memory(params_of(*ctx)),
    ensures
        final(memory).wf(),
        final(memory).spec_rows() == old(memory).spec_rows(),
        final(memory).spec_cols() == old(memory).spec_cols(),
        final(memory)@ == spec_initial_memory(params_of(*ctx)),
{
    let ghost p = params_of(*ctx);
    let h0 = initial_hash(ctx);
    let mut l: u32 = 0;
    while l < ctx.config.lanes
        invariant
            ctx.wf(),
            l <= ctx.config.lanes,
            h0@ == spec_h0(params_of(*ctx)),
            h0@.len() == 64,
            p == params_of(*ctx),
            memory.wf(),
            memory.spec_rows() == ctx.config.lanes as int,
            memory.spec_cols() == ctx.lane_length as int,
            memory@ == spec_seeded_upto(p, h0@, l as int),
        decreases ctx.config.lanes - l,
    {
        seed_lane(ctx, &h0, l, memory);
        l = l + 1;
    }
}

/// The reference column for one position, computed from the 32-bit value
/// j1 taken from the pseudo-random word.
fn index_alpha(ctx: &Context, pass: u32, slice: u32, index: u32, j1: u64, same_lane: bool) -> (r:
    u32)
    requires
        ctx.wf(),
        slice < 4,
        index < ctx.segment_length,
        j1 < 0x1_0000_0000,
        pass == 0 && slice == 0 ==> index >= 2 && same_lane,
    ensures
        r as int == spec_index_alpha(
            params_of(*ctx),
            pass as int,
            slice as int,
            index as int,
            j1 as int,
            same_lane,
        ),
        r < ctx.lane_length,
{
    let seg = ctx.segment_length as u64;
    let ll = ctx.lane_length as u64;
    let idx = index as u64;
    let sl = slice as u64;
    proof {
        assert(sl * seg <= 3 * seg && (sl + 1) * seg <= 4 * seg) by (nonlinear_arith)
            requires
                sl <= 3,
                seg >= 0,
        ;
        assert(sl >= 1 ==> sl * seg >= seg) by (nonlinear_arith);
    }
    let area: u64 = if pass == 0 {
        if slice == 0 {
            idx - 1
        } else if same_lane {
            sl * seg + idx - 1
        } else {
            if index == 0 {
                sl * seg - 1
            } else {
                sl * seg
            }
        }
    } else {
        if same_lane {
            ll - seg + idx - 1
        } else {
            if index == 0 {
                ll - seg - 1
            } else {
                ll - seg
            }
        }
    };
    proof {
        assert(1 <= area < 0x1_0000_0000);
        assert(j1 * j1 < 0x1_0000_0000_0000_0000 && area * j1 < 0x1_0000_0000_0000_0000)
            by (nonlinear_arith)
            requires
                j1 < 0x1_0000_0000,
                area < 0x1_0000_0000,
        ;
        lemma_multiply_divide_lt(j1 * j1, 0x1_0000_0000int, 0x1_0000_0000int);
    }
    let rel: u64 = (j1 * j1) / 0x1_0000_0000;
    proof {
        assert(area * rel < area * 0x1_0000_0000) by (nonlinear_arith)
            requires
                rel < 0x1_0000_0000,
                1 <= area,
        ;
        assert(area * 0x1_0000_0000 <= 0xffff_ffff * 0x1_0000_0000) by (nonlinear_arith)
            requires
                area <= 0xffff_ffff,
        ;
        lemma_multiply_divide_lt(area * rel, area as int, 0x1_0000_0000int);
    }
    let relpos: u64 = area - 1 - ((area * rel) / 0x1_0000_0000);
    let start: u64 = if pass != 0 && slice != 3 {
        (sl + 1) * seg
    } else {
        0
    };
    proof {
        lemma_mod_bound((start + relpos) as int, ll as int);
    }
    let r = ((start + relpos) % ll) as u32;
    r
}

/// The ctr-th address block of a segment, for data-independent addressing.
fn gen_addr_block(ctx: &Context, pass: u32, lane: u32, slice: u32, ctr: u64) -> (b: Block)
    requires
        ctx.wf(),
    ensures
        b.wf(),
        b@ == spec_addr_block(params_of(*ctx), pass as int, lane as int, slice as int, ctr as int),
{
    let zero = Block::zero();
    let mut w = zero.to_words();
    w[0] = pass as u64;
    w[1] = lane as u64;
    w[2] = slice as u64;
    w[3] = ctx.memory_blocks as u64;
    w[4] = ctx.config.time_cost as u64;
    w[5] = ctx.config.variant.as_u64();
    w[6] = ctr;
    proof {
        assert(w@ =~= spec_addr_input(
            params_of(*ctx),
            pass as int,
            lane as int,
            slice as int,
            ctr as int,
        ));
    }
    let input = Block::from_words(w);
    let t1 = g_block(&zero, &input);
    g_block(&zero, &t1)
}



/// Fill one lane's segment of one slice: `segment_length` consecutive
/// positions, in increasing order, each committed before the next.
#[verifier::rlimit(100)]
pub fn fill_segment(ctx: &Context, position: &Position, memory: &mut Memory, state: &mut Argon2Result)
    requires
        ctx.wf(),
        old(memory).wf(),
        old(memory).spec_rows() == ctx.config.lanes as int,
        old(memory).spec_cols() == ctx.lane_length as int,
        position.pass < ctx.config.time_cost,
        position.lane < ctx.config.lanes,
        position.slice < 4,
    ensures
        final(memory).wf(),
        final(memory).spec_rows() == old(memory).spec_rows(),
        final(memory).spec_cols() == old(memory).spec_cols(),
        final(memory)@ == spec_fill_seg_upto(
            params_of(*ctx),
            old(memory)@,
            position.pass as int,
            position.lane as int,
            position.slice as int,
            ctx.segment_length as int,
        ),
        final(state).hash == old(state).hash,
        final(state).state.enabled == old(state).state.enabled,
        !old(state).state.enabled ==> final(state).state.entries@ == old(state).state.entries@,
{
    let ghost p = params_of(*ctx);
    let ghost mem0 = memory@;
    let pass = position.pass;
    let lane = position.lane;
    let slice = position.slice;
    let seg = ctx.segment_length;
    let ll = ctx.lane_length;
    let independent = match ctx.config.variant {
        Variant::Argon2i => true,
        Variant::Argon2id => pass == 0 && slice < 2,
        Variant::Argon2d => false,
    };
    let mut addr_block: Block = Block::zero();
    let mut addr_ctr: u32 = 0;
    let mut i: u32 = if pass == 0 && slice == 0 {
        2
    } else {
        0
    };
    while i < seg
        invariant
            ctx.wf(),
            p == params_of(*ctx),
            seg == ctx.segment_length,
            ll == ctx.lane_length,
            pass == position.pass,
            lane == position.lane,
            slice == position.slice,
            pass < ctx.config.time_cost,
            lane < ctx.config.lanes,
            slice < 4,
            i <= seg,
            i >= spec_seg_start(pass as int, slice as int),
            independent == spec_independent(p.variant, pass as int, slice as int),
            memory.wf(),
            memory.spec_rows() == ctx.config.lanes as int,
            memory.spec_cols() == ctx.lane_length as int,
            memory@ == spec_fill_seg_upto(p, mem0, pass as int, lane as int, slice as int, i as int),
            state.hash == old(state).hash,
            state.state.enabled == old(state).state.enabled,
            !old(state).state.enabled ==> state.state.entries@ == old(state).state.entries@,
            addr_ctr != 0 ==> addr_block.wf() && addr_block@ == spec_addr_block(
                p,
                pass as int,
                lane as int,
                slice as int,
                addr_ctr as int,
            ),
        decreases seg - i,
    {
        let ghost mem_it = memory@;
        proof {
            assert(slice as int * (seg as int) <= 3 * (seg as int) && (slice as int) * (seg as int)
                >= 0) by (nonlinear_arith)
                requires
                    slice <= 3,
                    seg >= 0,
            ;
        }
        let col: u32 = slice * seg + i;
        let prev: u32 = if col == 0 {
            ll - 1
        } else {
            col - 1
        };
        let pr: u64 = if independent {
            let need: u32 = i / 128 + 1;
            if addr_ctr != need {
                addr_block = gen_addr_block(ctx, pass, lane, slice, need as u64);
                addr_ctr = need;
            }
            addr_block.word((i % 128) as usize)
        } else {
            memory.block_at(lane, prev).word(0)
        };
        proof {
            assert(pr == spec_prand(p, mem_it, pass as int, lane as int, slice as int, i as int));
        }
        let ref_lane: u32 = if pass == 0 && slice == 0 {
            lane
        } else {
            proof {
                lemma_mod_bound(
                    ((pr / 0x1_0000_0000) % (ctx.config.lanes as u64)) as int,
                    ctx.config.lanes as int,
                );
            }
            ((pr / 0x1_0000_0000) % (ctx.config.lanes as u64)) as u32
        };
        let same = ref_lane == lane;
        let j1: u64 = pr % 0x1_0000_0000;
        let ref_col: u32 = index_alpha(ctx, pass, slice, i, j1, same);
        let prev_b = memory.block_at(lane, prev);
        let ref_b = memory.block_at(ref_lane, ref_col);
        let mut newb = g_block(prev_b, ref_b);
        let version13 = match ctx.config.version {
            Version::Version13 => true,
            Version::Version10 => false,
        };
        if version13 && pass > 0 {
            let oldb = memory.block_at(lane, col);
            newb = newb.xored(oldb);
        }
        memory.set_block(lane, col, newb);
        if state.state.enabled {
            let rec_pos = Position { pass, lane, slice, index: col };
            crate::visualization::write_state_entry(state, &rec_pos, ref_col, ref_lane as u64, ctx);
        }
        proof {
            assert(memory@ == spec_step(p, mem_it, pass as int, lane as int, slice as int, i as int));
            assert(spec_fill_seg_upto(p, mem0, pass as int, lane as int, slice as int, i as int + 1)
                == spec_step(
                p,
                spec_fill_seg_upto(p, mem0, pass as int, lane as int, slice as int, i as int),
                pass as int,
                lane as int,
                slice as int,
                i as int,
            ));
        }
        i = i + 1;
    }
}

/// Drive the whole fill: passes in order, the four slices of each pass in
/// order, and within a slice one segment per lane. Lanes of one slice are
/// independent of each other, which is what lets an embedder run them
/// concurrently between slice barriers without changing the result.
pub fn fill_memory_blocks(ctx: &Context, memory: &mut Memory, state: &mut Argon2Result)
    requires
        ctx.wf(),
        old(memory).wf(),
        old(memory).spec_rows() == ctx.config.lanes as int,
        old(memory).spec_cols() == ctx.lane_length as int,
    ensures
        final(memory).wf(),
        final(memory).spec_rows() == old(memory).spec_rows(),
        final(memory).spec_cols() == old(memory).spec_cols(),
        final(memory)@ == spec_fill_upto(params_of(*ctx), old(memory)@, ctx.config.time_cost as int),
        final(state).hash == old(state).hash,
        final(state).state.enabled == old(state).state.enabled,
        !old(state).state.enabled ==> final(state).state.entries@ == old(state).state.entries@,
{
    let ghost p = params_of(*ctx);
    let ghost m0 = memory@;
    let mut pass: u32 = 0;
    while pass < ctx.config.time_cost
        invariant
            ctx.wf(),
            p == params_of(*ctx),
            pass <= ctx.config.time_cost,
            memory.wf(),
            memory.spec_rows() == ctx.config.lanes as int,
            memory.spec_cols() == ctx.lane_length as int,
            memory@ == spec_fill_upto(p, m0, pass as int),
            state.hash == old(state).hash,
            state.state.enabled == old(state).state.enabled,
            !old(state).state.enabled ==> state.state.entries@ == old(state).state.entries@,
        decreases ctx.config.time_cost - pass,
    {
        let ghost mp = memory@;
        let mut slice: u32 = 0;
        while slice < 4
            invariant
                ctx.wf(),
                p == params_of(*ctx),
                pass < ctx.config.time_cost,
                slice <= 4,
                memory.wf(),
                memory.spec_rows() == ctx.config.lanes as int,
                memory.spec_cols() == ctx.lane_length as int,
                memory@ == spec_fill_pass_upto(p, mp, pass as int, slice as int),
                state.hash == old(state).hash,
                state.state.enabled == old(state).state.enabled,
                !old(state).state.enabled ==> state.state.entries@ == old(state).state.entries@,
            decreases 4 - slice,
        {
            let ghost ms = memory@;
            let mut lane: u32 = 0;
            while lane < ctx.config.lanes
                invariant
                    ctx.wf(),
                    p == params_of(*ctx),
                    pass < ctx.config.time_cost,
                    slice < 4,
                    lane <= ctx.config.lanes,
                    memory.wf(),
                    memory.spec_rows() == ctx.config.lanes as int,
                    memory.spec_cols() == ctx.lane_length as int,
                    memory@ == spec_fill_slice_upto(p, ms, pass as int, slice as int, lane as int),
                    state.hash == old(state).hash,
                    state.state.enabled == old(state).state.enabled,
                    !old(state).state.enabled ==> state.state.entries@ == old(state).state.entries@,
                decreases ctx.config.lanes - lane,
            {
                let position = Position { pass, lane, slice, index: 0 };
                fill_segment(ctx, &position, memory, state);
                lane = lane + 1;
            }
            slice = slice + 1;
        }
        pass = pass + 1;
    }
}

/// Reduce the last column of the filled memory into the output tag.
pub fn finalize(ctx: &Context, memory: &Memory) -> (r: Vec<u8>)
    requires
        ctx.wf(),
        memory.wf(),
        memory.spec_rows() == ctx.config.lanes as int,
        memory.spec_cols() == ctx.lane_length as int,
    ensures
        r@ == spec_h_prime(
            words_to_bytes(spec_xor_column_upto(params_of(*ctx), memory@, ctx.config.lanes as int)),
            ctx.config.hash_length as nat,
        ),
{
    let ghost p = params_of(*ctx);
    let last_col = ctx.lane_length - 1;
    let mut acc: Block = memory.block_at(0, last_col).clone();
    let mut l: u32 = 1;
    while l < ctx.config.lanes
        invariant
            ctx.wf(),
            p == params_of(*ctx),
            1 <= l <= ctx.config.lanes,
            last_col == ctx.lane_length - 1,
            memory.wf(),
            memory.spec_rows() == ctx.config.lanes as int,
            memory.spec_cols() == ctx.lane_length as int,
            acc.wf(),
            acc@ == spec_xor_column_upto(p, memory@, l as int),
        decreases ctx.config.lanes - l,
    {
        let b = memory.block_at(l, last_col);
        acc = acc.xored(b);
        l = l + 1;
    }
    let ws = acc.to_words();
    let mut buf: Vec<u8> = Vec::new();
    let mut i: usize = 0;
    while i < QWORDS_IN_BLOCK
        invariant
            i <= QWORDS_IN_BLOCK,
            ws@.len() == QWORDS_IN_BLOCK,
            buf@.len() == 8 * i,
            forall|idx: int| 0 <= idx < 8 * i ==> buf@[idx] == crate::words::le_byte(
                ws@[idx / 8],
                idx % 8,
            ),
        decreases QWORDS_IN_BLOCK - i,
    {
        let w = ws[i];
        crate::words::push_word_le(&mut buf, w);
        i = i + 1;
    }
    proof {
        assert(buf@ =~= words_to_bytes(ws@));
    }
    h_prime(buf.as_slice(), ctx.config.hash_length)
}



/// The parameters a configuration and its inputs denote, with the
/// geometry derived from the memory cost and lane count.
pub open spec fn spec_params_for(config: crate::config::Config, pwd: Seq<u8>, salt: Seq<u8>) -> Params {
    let mb = crate::context::spec_memory_blocks(config.mem_cost as int, config.lanes as int);
    let ll = mb / (config.lanes as int);
    Params {
        variant: config.variant,
        version: config.version,
        hash_length: config.hash_length,
        mem_cost: config.mem_cost,
        lanes: config.lanes as int,
        segment_length: ll / 4,
        lane_length: ll,
        memory_blocks: mb,
        time_cost: config.time_cost as int,
        pwd,
        salt,
        secret: config.secret@,
        ad: config.ad@,
    }
}

/// A well-formed context denotes exactly the parameters of its
/// configuration and inputs.
pub proof fn lemma_params_of_context(ctx: Context)
    requires
        ctx.wf(),
    ensures
        params_of(ctx) == spec_params_for(ctx.config, ctx.pwd@, ctx.salt@),
{
    let lanes = ctx.config.lanes as int;
    let ll = ctx.lane_length as int;
    let seg = ctx.segment_length as int;
    let mb = ctx.memory_blocks as int;
    vstd::arithmetic::div_mod::lemma_div_multiples_vanish(ll, lanes);
    assert(lanes * ll == mb);
    assert(mb / lanes == ll);
    vstd::arithmetic::div_mod::lemma_div_multiples_vanish(seg, 4);
    assert((4 * seg) / 4 == seg);
    assert(ll / 4 == seg);
}



/// The tag is exactly hash_length bytes long.
pub proof fn lemma_tag_len(p: Params)
    requires
        p.hash_length >= 4,
    ensures
        spec_tag(p).len() == p.hash_length,
{
    reveal(spec_tag);
    crate::b2::lemma_h_prime_len(
        words_to_bytes(spec_xor_column_upto(p, spec_filled_memory(p), p.lanes)),
        p.hash_length as nat,
    );
}


} // verus!
