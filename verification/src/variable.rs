//! Variables, user value facts, and the errors the annotation operations
//! report.

use vstd::prelude::*;

verus! {

/// Storage class of a variable: the kind of location that backs it.
#[derive(Clone, Copy, PartialEq, Eq, Structural, Debug)]
pub enum StorageClass {
    /// A slot in the function's stack frame, identified by its offset.
    Stack,
    /// A machine register, identified by its register number.
    Register,
    /// A processor flag, identified by its flag number.
    Flag,
}

/// Identity of a variable: a storage-class tag plus a disambiguating
/// identifier (a stack offset, register number or flag number), and an SSA
/// version. Version `0` means the unversioned (non-SSA) variable; the SSA
/// projection assigns versions starting at `1`, one per definition.
#[derive(Clone, Copy, PartialEq, Eq, Structural, Debug)]
pub struct Variable {
    pub class: StorageClass,
    pub id: i64,
    pub version: usize,
}

impl Variable {
    /// The unversioned variable of the given storage class and identifier.
    pub fn new(class: StorageClass, id: i64) -> (r: Variable)
        ensures
            r == (Variable { class, id, version: 0 }),
    {
        Variable { class, id, version: 0 }
    }
}

/// A value description in the dataflow solver's vocabulary, attached by the
/// user to a variable at one of its definition sites.
#[derive(Clone, Copy, PartialEq, Eq, Structural, Debug)]
pub enum PossibleValueSet {
    /// The variable holds exactly this constant.
    ConstantValue { value: i64 },
    /// The variable's value lies in the closed range `[start, end]`.
    ValueRange { start: i64, end: i64 },
    /// Nothing is known about the value.
    Undetermined,
}

/// A committed user value fact: the value recorded for `var` at the
/// definition site at address `addr`.
#[derive(Clone, Copy, PartialEq, Eq, Structural, Debug)]
pub struct UserValueFact {
    pub var: Variable,
    pub addr: u64,
    pub value: PossibleValueSet,
}

/// Why a value-fact operation was rejected. Each variant carries the variable
/// and the requested address, so a caller can present a meaningful message.
#[derive(Clone, Copy, PartialEq, Eq, Structural, Debug)]
pub enum ValueFactError {
    /// The address is not a definition site of the variable; nothing was
    /// mutated.
    NoDefinitionSite { var: Variable, addr: u64 },
    /// The address is a definition site, but no fact is currently set there;
    /// nothing was mutated. A clear of an absent fact is reported, not
    /// silently accepted, so the outcome is deterministic and observable.
    NothingToClear { var: Variable, addr: u64 },
}

/// A declared type for a variable, as an opaque token into the external type
/// system, together with the confidence the engine attaches to it.
#[derive(Clone, Copy, PartialEq, Eq, Structural, Debug)]
pub struct TypeToken {
    pub id: u64,
    pub confidence: u8,
}

/// Name, declared type and provenance recorded for one variable. Entries with
/// `user_defined` set were made by a human or tool and take precedence over,
/// and survive, automatic reanalysis; entries without it are inferred and may
/// be overwritten freely.
pub struct VariableMetadata {
    pub var: Variable,
    pub name: String,
    pub ty: TypeToken,
    pub user_defined: bool,
}

} // verus!
