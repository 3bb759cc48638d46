//! Core of a medium-level intermediate-language (MLIL) subsystem for one
//! analyzed function: an addressable, indexable instruction stream; a derived,
//! cached static-single-assignment (SSA) view of that stream; a basic-block
//! partition; a variable definition/reference index; and user-supplied value
//! facts keyed by (variable, definition site) that drive targeted dataflow
//! annotation with incremental invalidation of the derived views.
//!
//! The disassembler that produces the instruction stream and the dataflow
//! solver that consumes the value facts are external collaborators: this crate
//! holds their inputs and outputs as plain values and verifies the indexing,
//! partitioning, projection and bookkeeping logic built over them.

pub mod blocks;
pub mod function;
pub mod instruction;
pub mod meta;
pub mod refs;
pub mod ssa;
pub mod values;
pub mod variable;
