use mlil_core::blocks::BasicBlock;
use mlil_core::function::{Function, MediumLevelILFunction};
use mlil_core::instruction::Instruction;
use mlil_core::refs::FunctionGraphType;
use mlil_core::variable::{PossibleValueSet, StorageClass, UserValueFact, ValueFactError, Variable};

fn ins(
    address: u64,
    size: u64,
    expr_index: usize,
    arch: u32,
    defines: Option<Variable>,
    uses: Vec<Variable>,
    ends_block: bool,
) -> Instruction {
    Instruction { address, size, expr_index, arch, defines, uses, ends_block }
}

/// One stack variable `v` defined at 0x1000 with a later use at 0x1010.
fn one_def_one_use() -> (MediumLevelILFunction, Variable) {
    let v = Variable::new(StorageClass::Stack, -8);
    let instructions = vec![
        ins(0x1000, 4, 0, 1, Some(v), vec![], false),
        ins(0x1010, 4, 1, 1, None, vec![v], true),
    ];
    let f = MediumLevelILFunction::new(Function { arch: 1, start: 0x1000 }, instructions).unwrap();
    (f, v)
}

#[test]
fn instruction_at_covered_addresses() {
    let (f, _v) = one_def_one_use();
    assert_eq!(f.instruction_count(), 2);
    // an address that starts the first instruction, and one inside it
    assert_eq!(f.instruction_at(0x1000).unwrap().address, 0x1000);
    assert_eq!(f.instruction_at(0x1003).unwrap().address, 0x1000);
    // an address inside the second instruction
    assert_eq!(f.instruction_at(0x1012).unwrap().address, 0x1010);
    // a gap address is associated with the next instruction
    assert_eq!(f.instruction_at(0x1008).unwrap().address, 0x1010);
    // past the last instruction: none, not an error
    assert!(f.instruction_at(0x1014).is_none());
    assert!(f.instruction_at(u64::MAX).is_none());
}

#[test]
fn positional_lookups() {
    let (f, v) = one_def_one_use();
    assert_eq!(f.instruction_from_idx(1).address, 0x1010);
    assert_eq!(f.instruction_from_instruction_idx(0).address, 0x1000);
    assert_eq!(f.instruction_from_instruction_idx(0).defines, Some(v));
    assert_eq!(f.get_function(), Function { arch: 1, start: 0x1000 });
}

#[test]
fn expression_positions_need_not_be_contiguous() {
    let owner = Function { arch: 1, start: 0 };
    // expression positions are monotone but sparse, as lifting leaves them
    let instructions = vec![
        ins(0x20, 2, 2, 1, None, vec![], false),
        ins(0x22, 2, 7, 1, None, vec![], true),
    ];
    let f = MediumLevelILFunction::new(owner, instructions).unwrap();
    assert_eq!(f.instruction_from_idx(7).address, 0x22);
    assert_eq!(f.instruction_from_idx(2).address, 0x20);
    assert_eq!(f.instruction_from_instruction_idx(1).expr_index, 7);
}

#[test]
fn an_address_may_host_several_instructions() {
    let owner = Function { arch: 1, start: 0 };
    // two inlined copies share an address; lookup finds the first
    let instructions = vec![
        ins(0x10, 2, 0, 1, None, vec![], false),
        ins(0x10, 2, 1, 1, None, vec![], true),
    ];
    let f = MediumLevelILFunction::new(owner, instructions).unwrap();
    assert_eq!(f.instruction_at(0x10).unwrap().expr_index, 0);
    assert_eq!(f.instruction_at(0x11).unwrap().expr_index, 0);
    assert!(f.instruction_at(0x12).is_none());
}

#[test]
fn malformed_streams_are_rejected() {
    let owner = Function { arch: 1, start: 0 };
    // zero-size instruction
    let bad = vec![ins(0x1000, 0, 0, 1, None, vec![], true)];
    assert!(MediumLevelILFunction::new(owner, bad).is_none());
    // decreasing addresses
    let bad = vec![
        ins(0x1010, 4, 0, 1, None, vec![], false),
        ins(0x1000, 4, 1, 1, None, vec![], true),
    ];
    assert!(MediumLevelILFunction::new(owner, bad).is_none());
    // non-increasing expression positions
    let bad = vec![
        ins(0x1000, 4, 1, 1, None, vec![], false),
        ins(0x1004, 4, 1, 1, None, vec![], true),
    ];
    assert!(MediumLevelILFunction::new(owner, bad).is_none());
    // wrapping address range
    let bad = vec![ins(u64::MAX, 4, 0, 1, None, vec![], true)];
    assert!(MediumLevelILFunction::new(owner, bad).is_none());
}

#[test]
fn block_partition_covers_every_position_once() {
    let owner = Function { arch: 1, start: 0 };
    let instructions = vec![
        ins(0x00, 2, 0, 1, None, vec![], false),
        ins(0x02, 2, 1, 1, None, vec![], true),
        ins(0x04, 2, 2, 1, None, vec![], false),
        ins(0x06, 2, 3, 1, None, vec![], false),
        ins(0x08, 2, 4, 1, None, vec![], true),
    ];
    let mut f = MediumLevelILFunction::new(owner, instructions).unwrap();
    let blocks = f.basic_blocks().clone();
    assert_eq!(blocks, vec![BasicBlock { start: 0, end: 2 }, BasicBlock { start: 2, end: 5 }]);
    // every linear position lies in exactly one block
    for p in 0..5usize {
        let holders: Vec<&BasicBlock> =
            blocks.iter().filter(|b| b.start <= p && p < b.end).collect();
        assert_eq!(holders.len(), 1);
    }
    // the cached partition is served again unchanged
    assert_eq!(f.basic_blocks().clone(), blocks);
}

#[test]
fn empty_function_has_no_blocks() {
    let owner = Function { arch: 1, start: 0 };
    let mut f = MediumLevelILFunction::new(owner, vec![]).unwrap();
    assert_eq!(f.instruction_count(), 0);
    assert!(f.basic_blocks().is_empty());
    assert!(f.instruction_at(0).is_none());
}

#[test]
fn ssa_form_is_idempotent() {
    let (mut f, _v) = one_def_one_use();
    let first_generation = {
        let s = f.ssa_form();
        assert!(s.is_ssa);
        s.generation
    };
    // a second call without intervening reanalysis serves the same state
    let again_generation = {
        let again = f.ssa_form();
        assert!(again.is_ssa);
        again.generation
    };
    assert_eq!(again_generation, first_generation);
    assert_eq!(again_generation, f.generation);
}

#[test]
fn ssa_versions_count_up_per_definition() {
    let v = Variable::new(StorageClass::Register, 3);
    let owner = Function { arch: 1, start: 0 };
    let instructions = vec![
        ins(0x00, 2, 0, 1, Some(v), vec![], false),
        ins(0x02, 2, 1, 1, None, vec![v], false),
        ins(0x04, 2, 2, 1, Some(v), vec![v], true),
    ];
    let mut f = MediumLevelILFunction::new(owner, instructions).unwrap();
    let s = f.ssa_form();
    // the first definition makes version 1, the second version 2
    assert_eq!(s.instructions[0].defines.unwrap().version, 1);
    assert_eq!(s.instructions[2].defines.unwrap().version, 2);
    // the use between them reads version 1; a use in the redefining
    // instruction still reads the version reaching it
    assert_eq!(s.instructions[1].uses[0].version, 1);
    assert_eq!(s.instructions[2].uses[0].version, 1);
    // the SSA container answers the same index queries in its own space
    assert_eq!(s.instruction_count(), 3);
    assert_eq!(s.instruction_at(0x02).unwrap().expr_index, 1);
}

#[test]
fn reanalysis_invalidates_the_ssa_counterpart() {
    let (mut f, _v) = one_def_one_use();
    f.ssa_form();
    assert!(f.ssa_cache.is_some());
    let g = f.generation;
    f.reanalyze();
    assert_eq!(f.generation, g + 1);
    assert!(f.ssa_cache.is_none());
}

#[test]
fn definitions_of_lists_exactly_the_sites() {
    let (f, v) = one_def_one_use();
    let defs = f.get_var_definitions(&v);
    assert_eq!(defs.len(), 1);
    assert_eq!(defs.get(0), 0);
    assert_eq!(f.instruction_from_instruction_idx(defs.get(0)).address, 0x1000);
    // a variable with no definitions yields the empty sequence
    let w = Variable::new(StorageClass::Register, 0);
    assert_eq!(f.get_var_definitions(&w).len(), 0);
}

#[test]
fn var_refs_lists_definitions_and_uses_in_order() {
    let (f, v) = one_def_one_use();
    let refs = f.var_refs(&v);
    assert_eq!(refs.len(), 2);
    assert_eq!(refs[0].addr(), 0x1000);
    assert_eq!(refs[0].graph_type(), FunctionGraphType::MediumLevelIL);
    assert_eq!(refs[0].expr(), 0);
    assert_eq!(refs[1].addr(), 0x1010);
    assert_eq!(refs[1].expr(), 1);
}

#[test]
fn fact_lifecycle_set_list_clear() {
    let (mut f, v) = one_def_one_use();
    let fact = PossibleValueSet::ConstantValue { value: 5 };
    // set at the definition site succeeds and the fact is listed
    assert_eq!(f.set_user_var_value(&v, 0x1000, fact), Ok(()));
    let listed = f.user_var_values();
    assert_eq!(listed, vec![UserValueFact { var: v, addr: 0x1000, value: fact }]);
    // replacing under the same key keeps one entry (last writer wins)
    let wider = PossibleValueSet::ValueRange { start: 0, end: 9 };
    assert_eq!(f.set_user_var_value(&v, 0x1000, wider), Ok(()));
    assert_eq!(f.user_var_values(), vec![UserValueFact { var: v, addr: 0x1000, value: wider }]);
    // clearing removes it
    assert_eq!(f.clear_user_var_value(&v, 0x1000), Ok(()));
    assert!(f.user_var_values().is_empty());
    // bulk clear leaves the listing empty
    assert_eq!(f.set_user_var_value(&v, 0x1000, fact), Ok(()));
    assert_eq!(f.clear_user_var_values(), Ok(()));
    assert!(f.user_var_values().is_empty());
}

#[test]
fn set_at_a_non_definition_site_mutates_nothing() {
    let (mut f, v) = one_def_one_use();
    let fact = PossibleValueSet::ConstantValue { value: 7 };
    assert_eq!(f.set_user_var_value(&v, 0x1000, fact), Ok(()));
    let before = f.user_var_values();
    let g = f.generation;
    // 0x1010 uses v but does not define it
    assert_eq!(
        f.set_user_var_value(&v, 0x1010, fact),
        Err(ValueFactError::NoDefinitionSite { var: v, addr: 0x1010 })
    );
    assert_eq!(f.user_var_values(), before);
    assert_eq!(f.generation, g);
    // clearing at a non-site reports the same error without mutation
    assert_eq!(
        f.clear_user_var_value(&v, 0x1010),
        Err(ValueFactError::NoDefinitionSite { var: v, addr: 0x1010 })
    );
    assert_eq!(f.user_var_values(), before);
}

#[test]
fn scenario_one_stack_variable_annotated_and_cleared() {
    let (mut f, v) = one_def_one_use();
    // exactly one definition site, at 0x1000
    let defs = f.get_var_definitions(&v);
    assert_eq!(defs.len(), 1);
    assert_eq!(f.instruction_from_instruction_idx(defs.get(0)).address, 0x1000);
    // informing a constant value at the site succeeds
    let fact = PossibleValueSet::ConstantValue { value: 5 };
    assert_eq!(f.set_user_var_value(&v, 0x1000, fact), Ok(()));
    // the range query sees the definition and the use, tagged with this layer
    let refs = f.var_refs_from(0x1000, Some(0x20), None);
    assert_eq!(refs.len(), 2);
    assert_eq!(refs[0].variable(), v);
    assert_eq!(refs[0].source().addr(), 0x1000);
    assert_eq!(refs[0].source().graph_type(), FunctionGraphType::MediumLevelIL);
    assert_eq!(refs[1].variable(), v);
    assert_eq!(refs[1].source().addr(), 0x1010);
    assert_eq!(refs[1].source().graph_type(), FunctionGraphType::MediumLevelIL);
    // clearing succeeds once; a second clear reports nothing to clear
    assert_eq!(f.clear_user_var_value(&v, 0x1000), Ok(()));
    assert_eq!(
        f.clear_user_var_value(&v, 0x1000),
        Err(ValueFactError::NothingToClear { var: v, addr: 0x1000 })
    );
}

#[test]
fn scenario_explicit_architecture_is_honored() {
    let (f, v) = one_def_one_use();
    // the function's own architecture (1) sees the references
    assert_eq!(f.var_refs_from(0x1000, Some(0x20), None).len(), 2);
    assert_eq!(f.var_refs_from(0x1000, Some(0x20), Some(1)).len(), 2);
    // a differing architecture scopes to its own decoding: nothing here
    assert!(f.var_refs_from(0x1000, Some(0x20), Some(2)).is_empty());
    // whole-function scope when the length is omitted
    let whole = f.var_refs_from(0, None, None);
    assert_eq!(whole.len(), 2);
    assert_eq!(whole[0].variable(), v);
}

#[test]
fn range_query_reports_each_distinct_pair_once() {
    let v = Variable::new(StorageClass::Register, 1);
    let w = Variable::new(StorageClass::Register, 2);
    let owner = Function { arch: 1, start: 0 };
    // one instruction both defines and uses v (and uses it twice), another
    // at the same address touches w: distinct call sites stay distinct,
    // repeated occurrences within one instruction do not repeat
    let instructions = vec![
        ins(0x10, 2, 0, 1, Some(v), vec![v, v], false),
        ins(0x10, 2, 1, 1, None, vec![w], true),
    ];
    let f = MediumLevelILFunction::new(owner, instructions).unwrap();
    let refs = f.var_refs_from(0x10, Some(2), None);
    assert_eq!(refs.len(), 2);
    assert_eq!(refs[0].variable(), v);
    assert_eq!(refs[0].source().expr(), 0);
    assert_eq!(refs[1].variable(), w);
    assert_eq!(refs[1].source().expr(), 1);
}

#[test]
fn user_metadata_takes_precedence_and_survives() {
    let (mut f, v) = one_def_one_use();
    let ty = mlil_core::variable::TypeToken { id: 11, confidence: 255 };
    assert!(!f.is_var_user_defined(&v));
    f.create_user_var(&v, ty, String::from("counter"), false);
    assert!(f.is_var_user_defined(&v));
    // automatic inference does not overwrite what a human set
    let auto_ty = mlil_core::variable::TypeToken { id: 12, confidence: 40 };
    f.create_auto_var(&v, auto_ty, String::from("var_8"), false);
    assert!(f.is_var_user_defined(&v));
    assert_eq!(f.var_meta.len(), 1);
    assert_eq!(f.var_meta[0].name, "counter");
    assert_eq!(f.var_meta[0].ty, ty);
    // reanalysis never touches metadata
    f.reanalyze();
    assert_eq!(f.var_meta[0].name, "counter");
    // deleting the user entry removes it
    f.delete_user_var(&v);
    assert!(!f.is_var_user_defined(&v));
    assert!(f.var_meta.is_empty());
}

#[test]
fn stack_variable_metadata_round_trip() {
    let (mut f, _v) = one_def_one_use();
    let ty = mlil_core::variable::TypeToken { id: 3, confidence: 128 };
    f.create_auto_stack_var(-8, ty, String::from("var_8"));
    let stack_var = Variable::new(StorageClass::Stack, -8);
    assert!(!f.is_var_user_defined(&stack_var));
    // a user entry replaces the automatic one
    f.create_user_stack_var(-8, ty, String::from("count"));
    assert!(f.is_var_user_defined(&stack_var));
    // deleting automatic state leaves the user entry alone
    f.delete_auto_stack_var(-8);
    assert!(f.is_var_user_defined(&stack_var));
    f.delete_user_stack_var(-8);
    assert!(!f.is_var_user_defined(&stack_var));
    // deleting the automatic entry removes it when no user entry shields it
    f.create_auto_stack_var(-8, ty, String::from("var_8"));
    f.delete_auto_stack_var(-8);
    assert!(f.var_meta.is_empty());
}

#[test]
fn mutation_invalidates_derived_views() {
    let (mut f, v) = one_def_one_use();
    f.ssa_form();
    let stamped = f.basic_blocks().clone();
    assert!(f.ssa_cache.is_some());
    let fact = PossibleValueSet::Undetermined;
    assert_eq!(f.set_user_var_value(&v, 0x1000, fact), Ok(()));
    // the accepted write re-propagated: the SSA view is dropped and the
    // cached partition is stale, rebuilt on the next access
    assert!(f.ssa_cache.is_none());
    assert_eq!(f.blocks_cache.as_ref().unwrap().generation + 1, f.generation);
    assert_eq!(f.basic_blocks().clone(), stamped);
    assert_eq!(f.blocks_cache.as_ref().unwrap().generation, f.generation);
}
