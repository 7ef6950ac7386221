//! The 1024-byte unit of memory state: 128 little-endian 8-byte words.
use vstd::prelude::*;

verus! {

/// Number of 8-byte words in one block.
pub const QWORDS_IN_BLOCK: usize = 128;

/// The all-zero block value.
pub open spec fn zero_block_words() -> Seq<u64> {
    Seq::new(128, |i: int| 0u64)
}

/// The word sequence of a block xored with another, word by word.
pub open spec fn xor_words(x: Seq<u64>, y: Seq<u64>) -> Seq<u64> {
    Seq::new(x.len(), |i: int| x[i] ^ y[i])
}

pub struct Block {
    words: Vec<u64>,
}

impl Block {
    /// The mathematical value of a block: its sequence of 128 words.
    pub closed spec fn view(&self) -> Seq<u64> {
        self.words@
    }

    /// A block is well formed when it holds exactly 128 words.
    pub open spec fn wf(&self) -> bool {
        self@.len() == QWORDS_IN_BLOCK
    }

    /// The all-zero block.
    pub fn zero() -> (r: Block)
        ensures
            r.wf(),
            r@ == zero_block_words(),
    {
        let mut words: Vec<u64> = Vec::new();
        let mut i: usize = 0;
        while i < QWORDS_IN_BLOCK
            invariant
                i <= QWORDS_IN_BLOCK,
                words@.len() == i,
                forall|j: int| 0 <= j < i ==> words@[j] == 0u64,
            decreases QWORDS_IN_BLOCK - i,
        {
            words.push(0u64);
            i = i + 1;
        }
        proof {
            assert(words@ =~= zero_block_words());
        }
        Block { words }
    }

    /// A block made of the given 128 words.
    pub fn from_words(words: Vec<u64>) -> (r: Block)
        requires
            words@.len() == QWORDS_IN_BLOCK,
        ensures
            r.wf(),
            r@ == words@,
    {
        Block { words }
    }

    /// Word i of the block.
    pub fn word(&self, i: usize) -> (r: u64)
        requires
            self.wf(),
            i < QWORDS_IN_BLOCK,
        ensures
            r == self@[i as int],
    {
        self.words[i]
    }

    /// The 128 words of the block, as a fresh vector.
    pub fn to_words(&self) -> (r: Vec<u64>)
        requires
            self.wf(),
        ensures
            r@ == self@,
    {
        let mut out: Vec<u64> = Vec::new();
        let mut i: usize = 0;
        while i < QWORDS_IN_BLOCK
            invariant
                self.wf(),
                i <= QWORDS_IN_BLOCK,
                out@.len() == i,
                forall|j: int| 0 <= j < i ==> out@[j] == self@[j],
            decreases QWORDS_IN_BLOCK - i,
        {
            let w = self.words[i];
            out.push(w);
            i = i + 1;
        }
        proof {
            assert(out@ =~= self@);
        }
        out
    }

    /// This block xored word by word with another.
    pub fn xored(&self, other: &Block) -> (r: Block)
        requires
            self.wf(),
            other.wf(),
        ensures
            r.wf(),
            r@ == xor_words(self@, other@),
    {
        let mut words: Vec<u64> = Vec::new();
        let mut i: usize = 0;
        while i < QWORDS_IN_BLOCK
            invariant
                self.wf(),
                other.wf(),
                i <= QWORDS_IN_BLOCK,
                words@.len() == i,
                forall|j: int| 0 <= j < i ==> words@[j] == (self@[j] ^ other@[j]),
            decreases QWORDS_IN_BLOCK - i,
        {
            let w = self.words[i] ^ other.words[i];
            words.push(w);
            i = i + 1;
        }
        proof {
            assert(words@ =~= xor_words(self@, other@));
        }
        Block { words }
    }
}

impl Clone for Block {
    /// An exact copy: the clone carries the same 128 words.
    fn clone(&self) -> (r: Block)
        ensures
            r@ == self@,
    {
        let mut words: Vec<u64> = Vec::new();
        let mut i: usize = 0;
        while i < self.words.len()
            invariant
                i <= self.words@.len(),
                words@.len() == i,
                forall|j: int| 0 <= j < i ==> words@[j] == self.words@[j],
            decreases self.words@.len() - i,
        {
            let w = self.words[i];
            words.push(w);
            i = i + 1;
        }
        proof {
            assert(words@ =~= self.words@);
        }
        Block { words }
    }
}

} // verus!
