//! The memory matrix: a dense lanes x lane_length array of blocks, stored
//! row major. Coordinates are engine-internal and in range by construction.
use vstd::prelude::*;

use crate::block::{Block, zero_block_words, QWORDS_IN_BLOCK};

verus! {

pub struct Memory {
    rows: usize,
    cols: usize,
    blocks: Vec<Block>,
}

/// Index arithmetic: a coordinate inside the matrix lies inside the flat
/// vector.
proof fn lemma_row_major_index(lane: int, col: int, rows: int, cols: int)
    requires
        0 <= lane < rows,
        0 <= col < cols,
    ensures
        0 <= lane * cols + col < rows * cols,
{
    assert(0 <= lane * cols + col < rows * cols) by (nonlinear_arith)
        requires
            0 <= lane < rows,
            0 <= col < cols,
    ;
}

impl Memory {
    /// The mathematical value: the flat sequence of block values, row
    /// major — block (lane, col) at index lane * cols + col.
    pub closed spec fn view(&self) -> Seq<Seq<u64>> {
        self.blocks@.map_values(|b: Block| b@)
    }

    pub closed spec fn spec_rows(&self) -> int {
        self.rows as int
    }

    pub closed spec fn spec_cols(&self) -> int {
        self.cols as int
    }

    pub open spec fn wf(&self) -> bool {
        &&& self@.len() == self.spec_rows() * self.spec_cols()
        &&& self.spec_rows() >= 1
        &&& self.spec_cols() >= 1
        &&& self.spec_rows() * self.spec_cols() <= 0xffff_ffff
        &&& forall|k: int| 0 <= k < self@.len() ==> (#[trigger] self@[k]).len() == QWORDS_IN_BLOCK
    }

    /// A zeroed matrix of lanes x lane_length blocks.
    pub fn new(lanes: u32, lane_length: u32) -> (r: Memory)
        requires
            lanes >= 1,
            lane_length >= 1,
            (lanes as int) * (lane_length as int) <= 0xffff_ffff,
        ensures
            r.wf(),
            r.spec_rows() == lanes as int,
            r.spec_cols() == lane_length as int,
            r@.len() == (lanes as int) * (lane_length as int),
            forall|k: int| 0 <= k < r@.len() ==> r@[k] == zero_block_words(),
    {
        let rows = lanes as usize;
        let cols = lane_length as usize;
        let total = ((lanes as u64) * (lane_length as u64)) as usize;
        proof {
            assert((lanes as u64) * (lane_length as u64) == (lanes as int) * (lane_length as int));
        }
        let mut blocks: Vec<Block> = Vec::new();
        let mut i: usize = 0;
        while i < total
            invariant
                i <= total,
                blocks@.len() == i,
                forall|k: int| 0 <= k < i ==> (#[trigger] blocks@[k])@ == zero_block_words(),
            decreases total - i,
        {
            blocks.push(Block::zero());
            i = i + 1;
        }
        let r = Memory { rows, cols, blocks };
        proof {
            assert(forall|k: int| 0 <= k < r@.len() ==> r@[k] == zero_block_words());
        }
        r
    }

    /// The block at a coordinate.
    pub fn block_at(&self, lane: u32, col: u32) -> (r: &Block)
        requires
            self.wf(),
            (lane as int) < self.spec_rows(),
            (col as int) < self.spec_cols(),
        ensures
            r@ == self@[(lane as int) * self.spec_cols() + (col as int)],
            r.wf(),
    {
        proof {
            lemma_row_major_index(lane as int, col as int, self.spec_rows(), self.spec_cols());
        }
        let idx = (lane as usize) * self.cols + (col as usize);
        proof {
            assert(self@[(lane as int) * self.spec_cols() + (col as int)].len()
                == QWORDS_IN_BLOCK);
            assert(self@[idx as int] == self.blocks@[idx as int]@);
        }
        &self.blocks[idx]
    }

    /// Replace the block at a coordinate.
    pub fn set_block(&mut self, lane: u32, col: u32, b: Block)
        requires
            old(self).wf(),
            (lane as int) < old(self).spec_rows(),
            (col as int) < old(self).spec_cols(),
            b.wf(),
        ensures
            final(self).wf(),
            final(self).spec_rows() == old(self).spec_rows(),
            final(self).spec_cols() == old(self).spec_cols(),
            final(self)@ == old(self)@.update(
                (lane as int) * old(self).spec_cols() + (col as int),
                b@,
            ),
    {
        proof {
            lemma_row_major_index(lane as int, col as int, self.spec_rows(), self.spec_cols());
        }
        let idx = (lane as usize) * self.cols + (col as usize);
        self.blocks[idx] = b;
        proof {
            assert(self@ =~= old(self)@.update(
                (lane as int) * old(self).spec_cols() + (col as int),
                b@,
            ));
        }
    }
}

} // verus!
