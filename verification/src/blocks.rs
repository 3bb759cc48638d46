//! Basic blocks: the partition of the instruction stream into maximal
//! straight-line regions, derived lazily and cached per function snapshot.

use vstd::prelude::*;
use crate::function::MediumLevelILFunction;
use crate::instruction::Instruction;

verus! {

/// One basic block: the contiguous run of linear instruction positions
/// `[start, end)` it covers. Block order reflects layout order.
#[derive(Clone, Copy, PartialEq, Eq, Structural, Debug)]
pub struct BasicBlock {
    pub start: usize,
    pub end: usize,
}

/// A cached block partition, stamped with the generation of the function
/// snapshot it was derived from. A snapshot whose generation no longer
/// matches the owner's is stale and is rebuilt on the next access.
pub struct BlocksSnapshot {
    pub generation: u64,
    pub blocks: Vec<BasicBlock>,
}

/// `blocks` is the basic-block partition of `instrs`: consecutive, non-empty,
/// gap-free runs that cover `[0, instrs.len())`, broken exactly after each
/// block-ending instruction. This characterizes the partition uniquely.
pub open spec fn is_partition(instrs: Seq<Instruction>, blocks: Seq<BasicBlock>) -> bool {
    &&& instrs.len() == 0 ==> blocks.len() == 0
    &&& instrs.len() > 0 ==> {
        &&& blocks.len() > 0
        &&& blocks[0].start == 0
        &&& blocks[blocks.len() - 1].end == instrs.len()
    }
    &&& forall|k: int| 0 <= k < blocks.len() ==> (#[trigger] blocks[k]).start < blocks[k].end
    &&& forall|k: int|
        0 < k < blocks.len() ==> (#[trigger] blocks[k]).start == blocks[k - 1].end
    &&& forall|k: int, p: int|
        0 <= k < blocks.len() && (#[trigger] blocks[k]).start <= p < blocks[k].end - 1
            ==> !(#[trigger] instrs[p]).ends_block
    &&& forall|k: int|
        0 <= k < blocks.len() && (#[trigger] blocks[k]).end < instrs.len()
            ==> instrs[blocks[k].end - 1].ends_block
}

/// In a chain of consecutive blocks, block ends grow with the block index.
pub proof fn lemma_block_ends_monotone(blocks: Seq<BasicBlock>, i: int, j: int)
    requires
        forall|k: int| 0 <= k < blocks.len() ==> (#[trigger] blocks[k]).start < blocks[k].end,
        forall|k: int|
            0 < k < blocks.len() ==> (#[trigger] blocks[k]).start == blocks[k - 1].end,
        0 <= i <= j < blocks.len(),
    ensures
        blocks[i].end <= blocks[j].end,
        i < j ==> blocks[i].end <= blocks[j].start,
    decreases j - i,
{
    if i < j {
        lemma_block_ends_monotone(blocks, i, j - 1);
        assert(blocks[j].start == blocks[j - 1].end);
    }
}

/// Every linear position in `[0, instrs.len())` lies in exactly one block of
/// the partition: no gaps and no overlaps.
pub proof fn lemma_partition_covers_each_position_once(
    instrs: Seq<Instruction>,
    blocks: Seq<BasicBlock>,
    p: int,
)
    requires
        is_partition(instrs, blocks),
        0 <= p < instrs.len(),
    ensures
        exists|k: int|
            0 <= k < blocks.len() && (#[trigger] blocks[k]).start <= p < blocks[k].end,
        forall|k1: int, k2: int|
            0 <= k1 < blocks.len() && 0 <= k2 < blocks.len()
                && (#[trigger] blocks[k1]).start <= p < blocks[k1].end
                && (#[trigger] blocks[k2]).start <= p < blocks[k2].end ==> k1 == k2,
{
    lemma_position_in_some_block(blocks, p, blocks.len() - 1);
    assert forall|k1: int, k2: int|
        0 <= k1 < blocks.len() && 0 <= k2 < blocks.len()
            && (#[trigger] blocks[k1]).start <= p < blocks[k1].end
            && (#[trigger] blocks[k2]).start <= p < blocks[k2].end implies k1 == k2 by {
        if k1 < k2 {
            lemma_block_ends_monotone(blocks, k1, k2);
        }
        if k2 < k1 {
            lemma_block_ends_monotone(blocks, k2, k1);
        }
    }
}

impl MediumLevelILFunction {
    /// Partitions the instruction stream into maximal straight-line regions:
    /// a block runs up to and including each block-ending instruction, and the
    /// final block ends at the function's end.
    fn compute_blocks(&self) -> (r: Vec<BasicBlock>)
        ensures
            is_partition(self.instructions@, r@),
    {
        let n = self.instructions.len();
        let mut blocks: Vec<BasicBlock> = Vec::new();
        let mut start: usize = 0;
        let mut i: usize = 0;
        while i < n
            invariant
                start <= i <= n,
                n == self.instructions@.len(),
                i == n ==> start == n,
                (start == 0 <==> blocks@.len() == 0),
                blocks@.len() > 0 ==> blocks@[0].start == 0 && blocks@[blocks@.len() - 1].end
                    == start,
                forall|k: int|
                    0 <= k < blocks@.len() ==> (#[trigger] blocks@[k]).start < blocks@[k].end,
                forall|k: int|
                    0 < k < blocks@.len() ==> (#[trigger] blocks@[k]).start == blocks@[k - 1].end,
                forall|k: int, p: int|
                    0 <= k < blocks@.len() && (#[trigger] blocks@[k]).start <= p < blocks@[k].end
                        - 1 ==> !(#[trigger] self.instructions@[p]).ends_block,
                forall|k: int|
                    0 <= k < blocks@.len() && (#[trigger] blocks@[k]).end < n
                        ==> self.instructions@[blocks@[k].end - 1].ends_block,
                forall|p: int| start <= p < i ==> !(#[trigger] self.instructions@[p]).ends_block,
            decreases n - i,
        {
            if self.instructions[i].ends_block || i + 1 == n {
                blocks.push(BasicBlock { start, end: i + 1 });
                start = i + 1;
            }
            i = i + 1;
        }
        blocks
    }

    /// The ordered basic blocks covering every linear instruction position
    /// exactly once (see [`lemma_partition_covers_each_position_once`]).
    /// Lazy and cached per snapshot: a partition cached at the current
    /// generation is served as is; one from a superseded generation is
    /// discarded and rebuilt, never returned stale.
    pub fn basic_blocks(&mut self) -> (r: &Vec<BasicBlock>)
        requires
            old(self).wf(),
        ensures
            final(self).wf(),
            is_partition(final(self).instructions@, r@),
            final(self).blocks_cache matches Some(snap) && *r == snap.blocks && snap.generation
                == final(self).generation,
            old(self).blocks_cache matches Some(snap) && snap.generation == old(self).generation
                ==> *final(self) == *old(self),
            final(self).instructions == old(self).instructions,
            final(self).user_values == old(self).user_values,
            final(self).var_meta == old(self).var_meta,
            final(self).owner == old(self).owner,
            final(self).generation == old(self).generation,
            final(self).is_ssa == old(self).is_ssa,
            final(self).ssa_cache == old(self).ssa_cache,
    {
        let valid = match &self.blocks_cache {
            Some(snap) => snap.generation == self.generation,
            None => false,
        };
        if !valid {
            let blocks = self.compute_blocks();
            self.blocks_cache = Some(BlocksSnapshot { generation: self.generation, blocks });
        }
        let snap = self.blocks_cache.as_ref().unwrap();
        &snap.blocks
    }
}

/// Blocks at the same index of two partitions of one stream coincide.
proof fn lemma_partition_prefix(
    instrs: Seq<Instruction>,
    b1: Seq<BasicBlock>,
    b2: Seq<BasicBlock>,
    k: int,
)
    requires
        is_partition(instrs, b1),
        is_partition(instrs, b2),
        0 <= k < b1.len(),
        k < b2.len(),
    ensures
        b1[k] == b2[k],
    decreases k,
{
    if k > 0 {
        lemma_partition_prefix(instrs, b1, b2, k - 1);
    }
    assert(b1[k].start == b2[k].start);
    lemma_block_ends_monotone(b1, k, b1.len() - 1);
    lemma_block_ends_monotone(b2, k, b2.len() - 1);
    let s = b1[k].start;
    let e1 = b1[k].end;
    let e2 = b2[k].end;
    if e1 < e2 {
        assert(instrs[e1 - 1].ends_block);
        assert(s <= e1 - 1 < e2 - 1);
        assert(false);
    }
    if e2 < e1 {
        assert(instrs[e2 - 1].ends_block);
        assert(s <= e2 - 1 < e1 - 1);
        assert(false);
    }
}

/// The block partition is unique: any two sequences of blocks that partition
/// the same stream are equal, so the contract of the partition pins its
/// result down completely.
pub proof fn lemma_partition_unique(
    instrs: Seq<Instruction>,
    b1: Seq<BasicBlock>,
    b2: Seq<BasicBlock>,
)
    requires
        is_partition(instrs, b1),
        is_partition(instrs, b2),
    ensures
        b1 == b2,
{
    if instrs.len() == 0 {
        assert(b1 =~= b2);
    } else {
        if b1.len() < b2.len() {
            lemma_partition_prefix(instrs, b1, b2, b1.len() - 1);
            lemma_block_ends_monotone(b2, b1.len() - 1, b2.len() - 1);
            assert(b2[b1.len() - 1].end == instrs.len());
            assert(b2[b1.len() as int].start == instrs.len());
            assert(false);
        }
        if b2.len() < b1.len() {
            lemma_partition_prefix(instrs, b2, b1, b2.len() - 1);
            lemma_block_ends_monotone(b1, b2.len() - 1, b1.len() - 1);
            assert(b1[b2.len() - 1].end == instrs.len());
            assert(b1[b2.len() as int].start == instrs.len());
            assert(false);
        }
        assert forall|k: int| 0 <= k < b1.len() implies b1[k] == b2[k] by {
            lemma_partition_prefix(instrs, b1, b2, k);
        }
        assert(b1 =~= b2);
    }
}

/// A position below the end of block `j` of a chain starting at 0 lies in
/// some block with index at most `j`.
proof fn lemma_position_in_some_block(blocks: Seq<BasicBlock>, p: int, j: int)
    requires
        forall|k: int| 0 <= k < blocks.len() ==> (#[trigger] blocks[k]).start < blocks[k].end,
        forall|k: int|
            0 < k < blocks.len() ==> (#[trigger] blocks[k]).start == blocks[k - 1].end,
        blocks.len() > 0 ==> blocks[0].start == 0,
        0 <= j < blocks.len(),
        0 <= p < blocks[j].end,
    ensures
        exists|k: int|
            0 <= k <= j && (#[trigger] blocks[k]).start <= p < blocks[k].end,
    decreases j,
{
    if p >= blocks[j].start {
        assert(blocks[j].start <= p < blocks[j].end);
    } else {
        lemma_position_in_some_block(blocks, p, j - 1);
    }
}

} // verus!
