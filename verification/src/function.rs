//! The function container: owns the instruction stream for one analyzed
//! function and is the root of every derived view (basic-block partition,
//! SSA counterpart, variable reference index, user value facts).

use vstd::prelude::*;
use crate::blocks::{BlocksSnapshot, is_partition};
use crate::instruction::{Instruction, covers, instr_end, instrs_wf};
use crate::meta::meta_wf;
use crate::ssa::is_ssa_projection;
use crate::values::facts_wf;
use crate::variable::{UserValueFact, VariableMetadata};

verus! {

/// The owning analysis context of a medium-level function: the architecture
/// whose decoding lifted it and the function's entry address.
#[derive(Clone, Copy, PartialEq, Eq, Structural, Debug)]
pub struct Function {
    pub arch: u32,
    pub start: u64,
}

/// A medium-level intermediate-language function: the ordered instruction
/// stream of one analyzed function, with its derived views.
///
/// `generation` counts structural mutations (reanalyses). Each cached derived
/// view records the generation it was built from; a view whose generation no
/// longer matches is stale and is rebuilt rather than reused. `is_ssa` marks
/// a container produced by the SSA projection: such a container is a fully
/// independent function in its own addressable space, derived from and linked
/// to its non-SSA source, never merged with it.
pub struct MediumLevelILFunction {
    pub owner: Function,
    pub generation: u64,
    pub is_ssa: bool,
    pub instructions: Vec<Instruction>,
    pub ssa_cache: Option<Box<MediumLevelILFunction>>,
    pub blocks_cache: Option<BlocksSnapshot>,
    pub user_values: Vec<UserValueFact>,
    pub var_meta: Vec<VariableMetadata>,
}

impl MediumLevelILFunction {
    /// Container invariant: the instruction stream is well shaped; every
    /// committed value fact sits at an existing definition site and no two
    /// facts share a key; variable metadata has one entry per variable; a
    /// cached SSA counterpart is exactly the projection of the current
    /// container, and a cached block partition from the current generation is
    /// exactly the partition of the current stream.
    pub open spec fn wf(self) -> bool {
        &&& instrs_wf(self.instructions@)
        &&& facts_wf(self.instructions@, self.user_values@)
        &&& meta_wf(self.var_meta@)
        &&& (self.ssa_cache matches Some(b) ==> is_ssa_projection(self, *b))
        &&& (self.blocks_cache matches Some(snap) ==> snap.generation <= self.generation && (
        snap.generation == self.generation ==> is_partition(self.instructions@, snap.blocks@)))
    }

    /// Builds the container for a freshly lifted function, validating the
    /// stream's shape. Returns `None` exactly when the stream is malformed:
    /// an instruction of size zero or with a wrapping address range,
    /// decreasing addresses, or non-increasing expression positions.
    pub fn new(owner: Function, instructions: Vec<Instruction>) -> (r: Option<
        MediumLevelILFunction,
    >)
        ensures
            match r {
                Some(f) => {
                    &&& instrs_wf(instructions@)
                    &&& f.wf()
                    &&& f.owner == owner
                    &&& f.generation == 0
                    &&& !f.is_ssa
                    &&& f.instructions == instructions
                    &&& f.ssa_cache is None
                    &&& f.blocks_cache is None
                    &&& f.user_values@.len() == 0
                    &&& f.var_meta@.len() == 0
                },
                None => !instrs_wf(instructions@),
            },
    {
        let n = instructions.len();
        let mut i: usize = 0;
        while i < n
            invariant
                i <= n,
                n == instructions@.len(),
                forall|k: int|
                    0 <= k < i ==> 1 <= #[trigger] instructions@[k].size
                        && instructions@[k].address + instructions@[k].size <= u64::MAX,
                forall|k: int, l: int|
                    0 <= k < l < i ==> #[trigger] instructions@[k].address
                        <= #[trigger] instructions@[l].address,
                forall|k: int, l: int|
                    0 <= k < l < i ==> #[trigger] instructions@[k].expr_index
                        < #[trigger] instructions@[l].expr_index,
            decreases n - i,
        {
            let ins = &instructions[i];
            if ins.size == 0 || ins.address > u64::MAX - ins.size {
                return None;
            }
            if i > 0 {
                let prev = &instructions[i - 1];
                if prev.address > ins.address || prev.expr_index >= ins.expr_index {
                    return None;
                }
            }
            i = i + 1;
        }
        Some(
            MediumLevelILFunction {
                owner,
                generation: 0,
                is_ssa: false,
                instructions,
                ssa_cache: None,
                blocks_cache: None,
                user_values: Vec::new(),
                var_meta: Vec::new(),
            },
        )
    }

    /// Total instruction count: the universe size every other component
    /// measures itself against.
    pub fn instruction_count(&self) -> (r: usize)
        ensures
            r == self.instructions@.len(),
    {
        self.instructions.len()
    }

    /// The owning analysis context.
    pub fn get_function(&self) -> (r: Function)
        ensures
            r == self.owner,
    {
        self.owner
    }

    /// Linear position of the first instruction whose address range ends past
    /// `addr`, or `None` when `addr` lies beyond the last instruction. On a
    /// well-formed stream this is the instruction whose range contains
    /// `addr` whenever some instruction covers it (see
    /// [`lemma_instruction_at_covers`]).
    pub fn instruction_index_at(&self, addr: u64) -> (r: Option<usize>)
        ensures
            match r {
                Some(i) => {
                    &&& i < self.instructions@.len()
                    &&& addr < instr_end(self.instructions@[i as int])
                    &&& forall|j: int|
                        0 <= j < i ==> instr_end(#[trigger] self.instructions@[j]) <= addr
                },
                None => forall|j: int|
                    0 <= j < self.instructions@.len() ==> instr_end(
                        #[trigger] self.instructions@[j],
                    ) <= addr,
            },
    {
        let n = self.instructions.len();
        let mut i: usize = 0;
        while i < n
            invariant
                i <= n,
                n == self.instructions@.len(),
                forall|j: int|
                    0 <= j < i ==> instr_end(#[trigger] self.instructions@[j]) <= addr,
            decreases n - i,
        {
            let ins = &self.instructions[i];
            if addr < ins.address || addr - ins.address < ins.size {
                return Some(i);
            }
            i = i + 1;
        }
        None
    }

    /// The instruction logically associated with `addr`: the first one whose
    /// range ends past `addr`, so the one containing `addr` when `addr` is
    /// covered, and the next one when `addr` falls in a gap. Returns `None`,
    /// not an error, when `addr` lies beyond the function's last instruction.
    pub fn instruction_at(&self, addr: u64) -> (r: Option<&Instruction>)
        ensures
            match r {
                Some(ins) => exists|i: int|
                    {
                        &&& 0 <= i < self.instructions@.len()
                        &&& *ins == #[trigger] self.instructions@[i]
                        &&& addr < instr_end(self.instructions@[i])
                        &&& forall|j: int|
                            0 <= j < i ==> instr_end(#[trigger] self.instructions@[j]) <= addr
                    },
                None => forall|j: int|
                    0 <= j < self.instructions@.len() ==> instr_end(
                        #[trigger] self.instructions@[j],
                    ) <= addr,
            },
    {
        match self.instruction_index_at(addr) {
            Some(i) => Some(&self.instructions[i]),
            None => None,
        }
    }

    /// Direct positional lookup by expression position. A total function over
    /// the valid range: callers must not pass an expression position the
    /// function does not hold.
    pub fn instruction_from_idx(&self, expr_idx: usize) -> (r: &Instruction)
        requires
            exists|i: int|
                0 <= i < self.instructions@.len() && (#[trigger] self.instructions@[i]).expr_index
                    == expr_idx,
        ensures
            exists|i: int|
                0 <= i < self.instructions@.len() && *r == #[trigger] self.instructions@[i]
                    && r.expr_index == expr_idx,
    {
        let n = self.instructions.len();
        let mut i: usize = 0;
        while i < n
            invariant
                i <= n,
                n == self.instructions@.len(),
                exists|k: int|
                    i <= k < n && (#[trigger] self.instructions@[k]).expr_index == expr_idx,
            decreases n - i,
        {
            if self.instructions[i].expr_index == expr_idx {
                return &self.instructions[i];
            }
            i = i + 1;
        }
        // The loop invariant leaves an occurrence at or after `i == n`,
        // which is impossible, so this point is unreachable.
        proof {
            assert(false);
        }
        &self.instructions[0]
    }

    /// Direct positional lookup by linear instruction position. A total
    /// function over `[0, instruction_count())`: callers must not pass an
    /// out-of-range position.
    pub fn instruction_from_instruction_idx(&self, instr_idx: usize) -> (r: &Instruction)
        requires
            instr_idx < self.instructions@.len(),
        ensures
            *r == self.instructions@[instr_idx as int],
    {
        &self.instructions[instr_idx]
    }

    /// Records a structural mutation: bumps the generation, so every cached
    /// derived view becomes stale, and drops the SSA counterpart, which must
    /// be re-derived on the next request. Committed value facts and variable
    /// metadata survive; in particular user-defined metadata is never touched
    /// by reanalysis.
    pub fn reanalyze(&mut self)
        requires
            old(self).wf(),
            old(self).generation < u64::MAX,
        ensures
            final(self).wf(),
            final(self).generation == old(self).generation + 1,
            final(self).ssa_cache is None,
            final(self).owner == old(self).owner,
            final(self).is_ssa == old(self).is_ssa,
            final(self).instructions == old(self).instructions,
            final(self).user_values == old(self).user_values,
            final(self).var_meta == old(self).var_meta,
            final(self).blocks_cache == old(self).blocks_cache,
    {
        self.generation = self.generation + 1;
        self.ssa_cache = None;
    }
}

/// Whenever some instruction of a well-formed stream covers `addr`, the
/// instruction `instruction_index_at` selects — the first whose range ends
/// past `addr` — itself covers `addr`: the lookup never skips past a covered
/// address to a later instruction.
pub proof fn lemma_instruction_at_covers(instrs: Seq<Instruction>, addr: u64, i: int, k: int)
    requires
        instrs_wf(instrs),
        0 <= k < instrs.len(),
        covers(instrs[k], addr),
        0 <= i < instrs.len(),
        addr < instr_end(instrs[i]),
        forall|j: int| 0 <= j < i ==> instr_end(#[trigger] instrs[j]) <= addr,
    ensures
        covers(instrs[i], addr),
{
    assert(i <= k);
    if i < k {
        assert(instrs[i].address <= instrs[k].address);
    }
}

} // verus!
