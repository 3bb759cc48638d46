//! The SSA projector: derives, caches and serves the static-single-assignment
//! counterpart of a function, a fully independent container linked to (and
//! never merged with) its source.

use vstd::prelude::*;
use crate::function::MediumLevelILFunction;
use crate::instruction::{Instruction, instrs_wf};
use crate::variable::Variable;

verus! {

/// The variable identity underneath SSA versioning: the same storage class
/// and identifier, version erased.
pub open spec fn base_of(v: Variable) -> Variable {
    Variable { class: v.class, id: v.id, version: 0 }
}

/// The instruction assigns some version of the base variable `b`.
pub open spec fn defines_base(ins: Instruction, b: Variable) -> bool {
    match ins.defines {
        Some(v) => base_of(v) == b,
        None => false,
    }
}

/// Number of instructions among the first `n` that assign some version of
/// the base variable `b`.
pub open spec fn base_defs_count(instrs: Seq<Instruction>, b: Variable, n: int) -> nat
    decreases n,
{
    if n <= 0 {
        0
    } else {
        base_defs_count(instrs, b, n - 1) + if defines_base(instrs[n - 1], b) {
            1nat
        } else {
            0nat
        }
    }
}

/// At most `n` of the first `n` instructions assign versions of `b`.
pub proof fn lemma_base_defs_count_le(instrs: Seq<Instruction>, b: Variable, n: int)
    requires
        0 <= n,
    ensures
        base_defs_count(instrs, b, n) <= n,
    decreases n,
{
    if n > 0 {
        lemma_base_defs_count_le(instrs, b, n - 1);
    }
}

/// The count of definitions of `b` grows along the stream, and strictly
/// grows past a position that defines `b`.
pub proof fn lemma_base_defs_count_monotone(instrs: Seq<Instruction>, b: Variable, i: int, j: int)
    requires
        0 <= i <= j,
    ensures
        base_defs_count(instrs, b, i) <= base_defs_count(instrs, b, j),
        i < j && defines_base(instrs[i], b) ==> base_defs_count(instrs, b, i)
            < base_defs_count(instrs, b, j),
    decreases j - i,
{
    if i < j {
        lemma_base_defs_count_monotone(instrs, b, i + 1, j);
    }
}

/// The variable that the SSA projection assigns at position `i` when the
/// source instruction there assigns `v`: the same base identity, versioned by
/// the number of earlier definitions of that base plus one, so that versions
/// of one base count up from one in layout order.
pub open spec fn ssa_def_var(instrs: Seq<Instruction>, v: Variable, i: int) -> Variable {
    Variable {
        class: v.class,
        id: v.id,
        version: (base_defs_count(instrs, base_of(v), i) + 1) as usize,
    }
}

/// The variable that the SSA projection reads at position `i` where the
/// source instruction reads `u`: the version reaching that position in
/// layout order, with version `0` standing for the value on entry, before
/// any definition.
pub open spec fn ssa_use_var(instrs: Seq<Instruction>, u: Variable, i: int) -> Variable {
    Variable {
        class: u.class,
        id: u.id,
        version: base_defs_count(instrs, base_of(u), i) as usize,
    }
}

/// The instruction `out` is the SSA image of position `i` of `src`: the same
/// place in the program (address, size, expression position, architecture,
/// block boundary), with its assigned and read variables renamed to their
/// SSA versions.
pub open spec fn ssa_instr_matches(src: Seq<Instruction>, i: int, out: Instruction) -> bool {
    &&& out.address == src[i].address
    &&& out.size == src[i].size
    &&& out.expr_index == src[i].expr_index
    &&& out.arch == src[i].arch
    &&& out.ends_block == src[i].ends_block
    &&& match src[i].defines {
        Some(v) => out.defines == Some(ssa_def_var(src, v, i)),
        None => out.defines is None,
    }
    &&& out.uses@.len() == src[i].uses@.len()
    &&& forall|k: int|
        0 <= k < src[i].uses@.len() ==> #[trigger] out.uses@[k] == ssa_use_var(
            src,
            src[i].uses@[k],
            i,
        )
}

/// `out` is the SSA image of the stream `src`, position by position.
pub open spec fn ssa_instrs_match(src: Seq<Instruction>, out: Seq<Instruction>) -> bool {
    &&& out.len() == src.len()
    &&& forall|i: int| 0 <= i < src.len() ==> ssa_instr_matches(src, i, #[trigger] out[i])
}

/// `ssa` is the SSA counterpart of `src`: a distinct container in its own
/// addressable space, holding the renamed stream, stamped with the source
/// generation it was derived from, carrying no derived caches, facts or
/// metadata of its own.
pub open spec fn is_ssa_projection(
    src: MediumLevelILFunction,
    ssa: MediumLevelILFunction,
) -> bool {
    &&& ssa.owner == src.owner
    &&& ssa.generation == src.generation
    &&& ssa.is_ssa
    &&& ssa.ssa_cache is None
    &&& ssa.blocks_cache is None
    &&& ssa.user_values@.len() == 0
    &&& ssa.var_meta@.len() == 0
    &&& ssa_instrs_match(src.instructions@, ssa.instructions@)
}

/// The SSA image of a well-formed stream is well formed: the projection
/// keeps every address, size and expression position.
pub proof fn lemma_ssa_instrs_wf(src: Seq<Instruction>, out: Seq<Instruction>)
    requires
        instrs_wf(src),
        ssa_instrs_match(src, out),
    ensures
        instrs_wf(out),
{
}

/// Static single assignment: in the SSA image, no two distinct instructions
/// assign the same variable. Each version of each base variable has at most
/// one definition site.
pub proof fn lemma_ssa_single_assignment(
    src: Seq<Instruction>,
    out: Seq<Instruction>,
    i: int,
    j: int,
)
    requires
        ssa_instrs_match(src, out),
        src.len() <= usize::MAX,
        0 <= i < j < out.len(),
        out[i].defines is Some,
    ensures
        out[i].defines != out[j].defines,
{
    if out[j].defines is Some {
        let v = src[i].defines->Some_0;
        let w = src[j].defines->Some_0;
        if base_of(v) == base_of(w) {
            lemma_base_defs_count_le(src, base_of(v), i);
            lemma_base_defs_count_le(src, base_of(v), j);
            lemma_base_defs_count_monotone(src, base_of(v), i, j);
            assert(base_defs_count(src, base_of(v), i) + 1 <= base_defs_count(
                src,
                base_of(w),
                j,
            ) + 1 <= usize::MAX);
        }
    }
}

impl MediumLevelILFunction {
    /// Number of instructions among the first `upto` that assign some
    /// version of the base variable of `v`.
    fn count_base_defs(&self, v: &Variable, upto: usize) -> (r: usize)
        requires
            upto <= self.instructions@.len(),
        ensures
            r == base_defs_count(self.instructions@, base_of(*v), upto as int),
    {
        let mut count: usize = 0;
        let mut j: usize = 0;
        while j < upto
            invariant
                j <= upto <= self.instructions@.len(),
                count == base_defs_count(self.instructions@, base_of(*v), j as int),
                count <= j,
            decreases upto - j,
        {
            match &self.instructions[j].defines {
                Some(d) => {
                    if d.class == v.class && d.id == v.id {
                        count = count + 1;
                    }
                },
                None => {},
            }
            j = j + 1;
        }
        count
    }

    /// Builds the SSA image of the instruction stream.
    fn derive_ssa_instructions(&self) -> (out: Vec<Instruction>)
        ensures
            ssa_instrs_match(self.instructions@, out@),
    {
        let n = self.instructions.len();
        let mut out: Vec<Instruction> = Vec::new();
        let mut i: usize = 0;
        while i < n
            invariant
                i <= n,
                n == self.instructions@.len(),
                out@.len() == i,
                forall|p: int|
                    0 <= p < i ==> ssa_instr_matches(self.instructions@, p, #[trigger] out@[p]),
            decreases n - i,
        {
            let src = &self.instructions[i];
            let defines = match &src.defines {
                Some(v) => {
                    let count = self.count_base_defs(v, i);
                    proof {
                        lemma_base_defs_count_le(self.instructions@, base_of(*v), i as int);
                    }
                    Some(Variable { class: v.class, id: v.id, version: count + 1 })
                },
                None => None,
            };
            let m = src.uses.len();
            let mut uses: Vec<Variable> = Vec::new();
            let mut k: usize = 0;
            while k < m
                invariant
                    k <= m,
                    i < n,
                    n == self.instructions@.len(),
                    m == self.instructions@[i as int].uses@.len(),
                    uses@.len() == k,
                    forall|q: int|
                        0 <= q < k ==> #[trigger] uses@[q] == ssa_use_var(
                            self.instructions@,
                            self.instructions@[i as int].uses@[q],
                            i as int,
                        ),
                decreases m - k,
            {
                let u = &self.instructions[i].uses[k];
                let count = self.count_base_defs(u, i);
                uses.push(Variable { class: u.class, id: u.id, version: count });
                k = k + 1;
            }
            let ins = Instruction {
                address: src.address,
                size: src.size,
                expr_index: src.expr_index,
                arch: src.arch,
                defines,
                uses,
                ends_block: src.ends_block,
            };
            out.push(ins);
            i = i + 1;
        }
        out
    }

    /// The SSA-form counterpart of this function: derived on first request,
    /// cached, and served from the cache until the source is reanalyzed. A
    /// container always holds its lifted stream, so the projection's input is
    /// always at hand and the call cannot fail.
    ///
    /// Idempotent: called again without an intervening reanalysis it changes
    /// nothing and hands back the very same derived state. The counterpart is
    /// itself a well-formed container supporting the same instruction-index
    /// and block-partition operations as its source.
    pub fn ssa_form(&mut self) -> (r: &MediumLevelILFunction)
        requires
            old(self).wf(),
        ensures
            final(self).wf(),
            r.wf(),
            is_ssa_projection(*old(self), *r),
            old(self).ssa_cache matches Some(b) ==> *final(self) == *old(self) && *r == *b,
            old(self).ssa_cache is None ==> {
                &&& final(self).ssa_cache matches Some(b) && *r == *b
                &&& final(self).instructions == old(self).instructions
                &&& final(self).user_values == old(self).user_values
                &&& final(self).var_meta == old(self).var_meta
                &&& final(self).owner == old(self).owner
                &&& final(self).generation == old(self).generation
                &&& final(self).is_ssa == old(self).is_ssa
                &&& final(self).blocks_cache == old(self).blocks_cache
            },
    {
        if self.ssa_cache.is_none() {
            let instructions = self.derive_ssa_instructions();
            let ssa = MediumLevelILFunction {
                owner: self.owner,
                generation: self.generation,
                is_ssa: true,
                instructions,
                ssa_cache: None,
                blocks_cache: None,
                user_values: Vec::new(),
                var_meta: Vec::new(),
            };
            proof {
                lemma_ssa_instrs_wf(self.instructions@, ssa.instructions@);
            }
            self.ssa_cache = Some(Box::new(ssa));
        }
        proof {
            let b = self.ssa_cache->Some_0;
            lemma_ssa_instrs_wf(self.instructions@, b.instructions@);
        }
        match &self.ssa_cache {
            Some(b) => &*b,
            None => {
                // The cache was just filled when it was empty, so this arm is
                // unreachable.
                proof {
                    assert(false);
                }
                self
            },
        }
    }
}

} // verus!
