//! The compression function G: two blocks in, one block out. The xor of
//! the inputs is mixed by a wide permutation applied to the eight rows and
//! then the eight columns of its 8x8 matrix of 16-byte groups, and the
//! result is xored with the unmixed value.
use vstd::prelude::*;

use crate::block::{Block, xor_words, QWORDS_IN_BLOCK};
use crate::words::{blamka, exec_blamka, exec_rotr, rotr};

verus! {

/// One quarter-round of the wide mixing permutation, on positions a, b, c,
/// d of the 16-word working vector.
pub open spec fn spec_bmix(v: Seq<u64>, a: int, b: int, c: int, d: int) -> Seq<u64> {
    let va = blamka(v[a], v[b]);
    let vd = rotr(v[d] ^ va, 32);
    let vc = blamka(v[c], vd);
    let vb = rotr(v[b] ^ vc, 24);
    let va2 = blamka(va, vb);
    let vd2 = rotr(vd ^ va2, 16);
    let vc2 = blamka(vc, vd2);
    let vb2 = rotr(vb ^ vc2, 63);
    v.update(a, va2).update(b, vb2).update(c, vc2).update(d, vd2)
}

/// The wide permutation on 16 words: four column quarter-rounds, then four
/// diagonal ones.
#[verifier::opaque]
pub open spec fn spec_permute(v: Seq<u64>) -> Seq<u64> {
    let v1 = spec_bmix(v, 0, 4, 8, 12);
    let v2 = spec_bmix(v1, 1, 5, 9, 13);
    let v3 = spec_bmix(v2, 2, 6, 10, 14);
    let v4 = spec_bmix(v3, 3, 7, 11, 15);
    let v5 = spec_bmix(v4, 0, 5, 10, 15);
    let v6 = spec_bmix(v5, 1, 6, 11, 12);
    let v7 = spec_bmix(v6, 2, 7, 8, 13);
    spec_bmix(v7, 3, 4, 9, 14)
}

/// The first j words of row i of a block: words 16i, 16i+1, ...
pub open spec fn row_prefix(v: Seq<u64>, i: int, j: int) -> Seq<u64>
    decreases j,
{
    if j <= 0 {
        Seq::empty()
    } else {
        row_prefix(v, i, j - 1).push(v[16 * i + (j - 1)])
    }
}

/// Row i of a block: its 16 consecutive words starting at 16i.
pub open spec fn row_of(v: Seq<u64>, i: int) -> Seq<u64> {
    row_prefix(v, i, 16)
}

/// Row i of the block replaced by the first j words of p.
pub open spec fn put_row_prefix(v: Seq<u64>, i: int, p: Seq<u64>, j: int) -> Seq<u64>
    decreases j,
{
    if j <= 0 {
        v
    } else {
        put_row_prefix(v, i, p, j - 1).update(16 * i + (j - 1), p[j - 1])
    }
}

/// The first j word pairs of column i of a block: words 2i and 2i+1 of
/// each 16-word group.
pub open spec fn col_prefix(v: Seq<u64>, i: int, j: int) -> Seq<u64>
    decreases j,
{
    if j <= 0 {
        Seq::empty()
    } else {
        col_prefix(v, i, j - 1).push(v[2 * i + 16 * (j - 1)]).push(v[2 * i + 16 * (j - 1) + 1])
    }
}

/// Column i of a block: 16 words, two from each 16-word group.
pub open spec fn col_of(v: Seq<u64>, i: int) -> Seq<u64> {
    col_prefix(v, i, 8)
}

/// Column i of the block replaced by the first j pairs of p.
pub open spec fn put_col_prefix(v: Seq<u64>, i: int, p: Seq<u64>, j: int) -> Seq<u64>
    decreases j,
{
    if j <= 0 {
        v
    } else {
        put_col_prefix(v, i, p, j - 1).update(2 * i + 16 * (j - 1), p[2 * (j - 1)]).update(
            2 * i + 16 * (j - 1) + 1,
            p[2 * (j - 1) + 1],
        )
    }
}

/// The block after the permutation has been applied to its first n rows.
pub open spec fn rows_upto(v: Seq<u64>, n: int) -> Seq<u64>
    decreases n,
{
    if n <= 0 {
        v
    } else {
        let w = rows_upto(v, n - 1);
        put_row_prefix(w, n - 1, spec_permute(row_of(w, n - 1)), 16)
    }
}

/// The block after the permutation has been applied to its first n
/// columns.
pub open spec fn cols_upto(v: Seq<u64>, n: int) -> Seq<u64>
    decreases n,
{
    if n <= 0 {
        v
    } else {
        let w = cols_upto(v, n - 1);
        put_col_prefix(w, n - 1, spec_permute(col_of(w, n - 1)), 8)
    }
}

/// The mixed image of a block: the permutation applied to all eight rows,
/// then to all eight columns.
pub open spec fn spec_mixed(r: Seq<u64>) -> Seq<u64> {
    cols_upto(rows_upto(r, 8), 8)
}

/// The compression function G(X, Y): with R = X xor Y, the result is
/// R xor mixed(R).
pub open spec fn spec_g(x: Seq<u64>, y: Seq<u64>) -> Seq<u64> {
    let r = xor_words(x, y);
    xor_words(r, spec_mixed(r))
}

proof fn lemma_put_row_prefix_len(v: Seq<u64>, i: int, p: Seq<u64>, j: int)
    requires
        v.len() == 128,
        0 <= i < 8,
        0 <= j <= 16,
    ensures
        put_row_prefix(v, i, p, j).len() == 128,
    decreases j,
{
    if j > 0 {
        lemma_put_row_prefix_len(v, i, p, j - 1);
    }
}

proof fn lemma_put_col_prefix_len(v: Seq<u64>, i: int, p: Seq<u64>, j: int)
    requires
        v.len() == 128,
        0 <= i < 8,
        0 <= j <= 8,
    ensures
        put_col_prefix(v, i, p, j).len() == 128,
    decreases j,
{
    if j > 0 {
        lemma_put_col_prefix_len(v, i, p, j - 1);
    }
}

fn bmix(v: &mut Vec<u64>, a: usize, b: usize, c: usize, d: usize)
    requires
        old(v)@.len() == 16,
        a < 16,
        b < 16,
        c < 16,
        d < 16,
    ensures
        final(v)@.len() == 16,
        final(v)@ == spec_bmix(old(v)@, a as int, b as int, c as int, d as int),
{
    let va = exec_blamka(v[a], v[b]);
    let vd = exec_rotr(v[d] ^ va, 32);
    let vc = exec_blamka(v[c], vd);
    let vb = exec_rotr(v[b] ^ vc, 24);
    let va2 = exec_blamka(va, vb);
    let vd2 = exec_rotr(vd ^ va2, 16);
    let vc2 = exec_blamka(vc, vd2);
    let vb2 = exec_rotr(vb ^ vc2, 63);
    v[a] = va2;
    v[b] = vb2;
    v[c] = vc2;
    v[d] = vd2;
    proof {
        assert(v@ =~= spec_bmix(old(v)@, a as int, b as int, c as int, d as int));
    }
}

fn permute(v: &mut Vec<u64>)
    requires
        old(v)@.len() == 16,
    ensures
        final(v)@.len() == 16,
        final(v)@ == spec_permute(old(v)@),
{
    proof {
        reveal(spec_permute);
    }
    bmix(v, 0, 4, 8, 12);
    bmix(v, 1, 5, 9, 13);
    bmix(v, 2, 6, 10, 14);
    bmix(v, 3, 7, 11, 15);
    bmix(v, 0, 5, 10, 15);
    bmix(v, 1, 6, 11, 12);
    bmix(v, 2, 7, 8, 13);
    bmix(v, 3, 4, 9, 14);
}

fn mix_rows(w: &mut Vec<u64>)
    requires
        old(w)@.len() == 128,
    ensures
        final(w)@.len() == 128,
        final(w)@ == rows_upto(old(w)@, 8),
{
    let ghost w0 = w@;
    let mut i: usize = 0;
    while i < 8
        invariant
            i <= 8,
            w@.len() == 128,
            w@ == rows_upto(w0, i as int),
        decreases 8 - i,
    {
        let ghost wi = w@;
        let base = 16 * i;
        let mut tmp: Vec<u64> = Vec::new();
        let mut j: usize = 0;
        while j < 16
            invariant
                i < 8,
                j <= 16,
                base == 16 * i,
                w@ == wi,
                w@.len() == 128,
                tmp@ == row_prefix(wi, i as int, j as int),
                tmp@.len() == j,
            decreases 16 - j,
        {
            let x = w[base + j];
            tmp.push(x);
            j = j + 1;
        }
        permute(&mut tmp);
        let mut j: usize = 0;
        while j < 16
            invariant
                i < 8,
                j <= 16,
                base == 16 * i,
                tmp@.len() == 16,
                tmp@ == spec_permute(row_of(wi, i as int)),
                wi.len() == 128,
                w@.len() == 128,
                w@ == put_row_prefix(wi, i as int, tmp@, j as int),
            decreases 16 - j,
        {
            proof {
                lemma_put_row_prefix_len(wi, i as int, tmp@, j as int);
            }
            let x = tmp[j];
            w[base + j] = x;
            j = j + 1;
        }
        i = i + 1;
    }
}

fn mix_cols(w: &mut Vec<u64>)
    requires
        old(w)@.len() == 128,
    ensures
        final(w)@.len() == 128,
        final(w)@ == cols_upto(old(w)@, 8),
{
    let ghost w0 = w@;
    let mut i: usize = 0;
    while i < 8
        invariant
            i <= 8,
            w@.len() == 128,
            w@ == cols_upto(w0, i as int),
        decreases 8 - i,
    {
        let ghost wi = w@;
        let mut tmp: Vec<u64> = Vec::new();
        let mut j: usize = 0;
        while j < 8
            invariant
                i < 8,
                j <= 8,
                w@ == wi,
                w@.len() == 128,
                tmp@ == col_prefix(wi, i as int, j as int),
                tmp@.len() == 2 * j,
            decreases 8 - j,
        {
            let x = w[2 * i + 16 * j];
            tmp.push(x);
            let y = w[2 * i + 16 * j + 1];
            tmp.push(y);
            j = j + 1;
        }
        permute(&mut tmp);
        let mut j: usize = 0;
        while j < 8
            invariant
                i < 8,
                j <= 8,
                tmp@.len() == 16,
                tmp@ == spec_permute(col_of(wi, i as int)),
                wi.len() == 128,
                w@.len() == 128,
                w@ == put_col_prefix(wi, i as int, tmp@, j as int),
            decreases 8 - j,
        {
            proof {
                lemma_put_col_prefix_len(wi, i as int, tmp@, j as int);
            }
            let x = tmp[2 * j];
            w[2 * i + 16 * j] = x;
            let y = tmp[2 * j + 1];
            w[2 * i + 16 * j + 1] = y;
            j = j + 1;
        }
        i = i + 1;
    }
}

/// G(X, Y), as a block operation.
pub fn g_block(x: &Block, y: &Block) -> (r: Block)
    requires
        x.wf(),
        y.wf(),
    ensures
        r.wf(),
        r@ == spec_g(x@, y@),
{
    let mut rv: Vec<u64> = Vec::new();
    let mut i: usize = 0;
    while i < QWORDS_IN_BLOCK
        invariant
            x.wf(),
            y.wf(),
            i <= QWORDS_IN_BLOCK,
            rv@.len() == i,
            forall|j: int| 0 <= j < i ==> rv@[j] == (x@[j] ^ y@[j]),
        decreases QWORDS_IN_BLOCK - i,
    {
        let v = x.word(i) ^ y.word(i);
        rv.push(v);
        i = i + 1;
    }
    proof {
        assert(rv@ =~= xor_words(x@, y@));
    }
    let mut w: Vec<u64> = Vec::new();
    let mut i: usize = 0;
    while i < QWORDS_IN_BLOCK
        invariant
            i <= QWORDS_IN_BLOCK,
            rv@.len() == QWORDS_IN_BLOCK,
            w@.len() == i,
            forall|j: int| 0 <= j < i ==> w@[j] == rv@[j],
        decreases QWORDS_IN_BLOCK - i,
    {
        let v = rv[i];
        w.push(v);
        i = i + 1;
    }
    proof {
        assert(w@ =~= rv@);
    }
    mix_rows(&mut w);
    mix_cols(&mut w);
    let mut out: Vec<u64> = Vec::new();
    let mut i: usize = 0;
    while i < QWORDS_IN_BLOCK
        invariant
            i <= QWORDS_IN_BLOCK,
            rv@.len() == QWORDS_IN_BLOCK,
            w@.len() == 128,
            out@.len() == i,
            forall|j: int| 0 <= j < i ==> out@[j] == (rv@[j] ^ w@[j]),
        decreases QWORDS_IN_BLOCK - i,
    {
        let v = rv[i] ^ w[i];
        out.push(v);
        i = i + 1;
    }
    proof {
        assert(out@ =~= xor_words(rv@, w@));
        assert(out@ == spec_g(x@, y@));
    }
    Block::from_words(out)
}

} // verus!
