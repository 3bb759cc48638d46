//! One instruction of the stream, and the shape invariants the container
//! keeps over the whole stream.

use vstd::prelude::*;
use crate::variable::Variable;

verus! {

/// One instruction, identified within its function by its expression
/// position. `address` and `size` give the half-open program range
/// `[address, address + size)` the instruction occupies; `arch` names the
/// architecture whose decoding produced it; `defines` is the variable it
/// assigns, if any; `uses` lists the variables it reads; `ends_block`
/// marks it as the last instruction of its basic block (a branch, jump or
/// return).
pub struct Instruction {
    pub address: u64,
    pub size: u64,
    pub expr_index: usize,
    pub arch: u32,
    pub defines: Option<Variable>,
    pub uses: Vec<Variable>,
    pub ends_block: bool,
}

/// First program address past the instruction.
pub open spec fn instr_end(ins: Instruction) -> int {
    ins.address + ins.size
}

/// The instruction's address range contains `a` (so in particular it starts
/// at `a` when `a` is its first address).
pub open spec fn covers(ins: Instruction, a: u64) -> bool {
    ins.address <= a < instr_end(ins)
}

/// The instruction assigns `v`.
pub open spec fn defines_var(ins: Instruction, v: Variable) -> bool {
    ins.defines == Some(v)
}

/// The instruction assigns or reads `v`.
pub open spec fn references_var(ins: Instruction, v: Variable) -> bool {
    defines_var(ins, v) || ins.uses@.contains(v)
}

/// Shape invariant of an instruction stream, in linear layout order:
/// every instruction occupies at least one address and its range does not
/// wrap; addresses never decrease (several instructions may share an address,
/// as inlined or merged copies do); expression positions were assigned
/// monotonically at lift time, so they strictly increase.
pub open spec fn instrs_wf(instrs: Seq<Instruction>) -> bool {
    &&& forall|i: int|
        0 <= i < instrs.len() ==> 1 <= #[trigger] instrs[i].size
            && instrs[i].address + instrs[i].size <= u64::MAX
    &&& forall|i: int, j: int|
        0 <= i < j < instrs.len() ==> #[trigger] instrs[i].address <= #[trigger] instrs[j].address
    &&& forall|i: int, j: int|
        0 <= i < j < instrs.len() ==> #[trigger] instrs[i].expr_index
            < #[trigger] instrs[j].expr_index
}

/// `addr` is a definition site of `v`: some instruction at that address
/// assigns `v`.
pub open spec fn is_def_site(instrs: Seq<Instruction>, v: Variable, addr: u64) -> bool {
    exists|i: int|
        0 <= i < instrs.len() && #[trigger] instrs[i].address == addr && defines_var(instrs[i], v)
}

} // verus!
