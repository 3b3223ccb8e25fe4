use load_store_pass::edit::Edit;
use load_store_pass::globalize::globalize_module;
use load_store_pass::lower::lower_module;
use load_store_pass::module::{Instruction, Module};
use load_store_pass::types::{Lane, Opcode, Operand, Ty, Value, VecTy};

fn result_of(i: usize) -> Operand {
    Operand::Value(Value::Inst(i))
}

fn param(index: usize, ty: Ty) -> Operand {
    Operand::Value(Value::Param { index, ty })
}

fn add(m: &mut Module, block: usize, op: Opcode, ty: Ty, operands: &[Operand]) -> usize {
    let i = m.append_inst(block, op, ty).unwrap();
    for o in operands {
        assert!(m.push_operand(i, *o));
    }
    i
}

/// A module that holds every kind of memory instruction and a use of a
/// global variable.
fn program() -> Module {
    let mut m = Module::new();
    let runtime = [
        ("globalify", Ty::Pointer),
        ("deglobalify", Ty::Pointer),
        ("check_if_global", Ty::Int(1)),
        ("__pando__replace_load_int8", Ty::Int(8)),
        ("__pando__replace_load_int32", Ty::Int(32)),
        ("__pando__replace_load_int64", Ty::Int(64)),
        ("__pando__replace_load_float32", Ty::Float(32)),
        ("__pando__replace_load_ptr", Ty::Pointer),
        ("__pando__replace_load_vector", Ty::Pointer),
        ("__pando__replace_store_int8", Ty::Void),
        ("__pando__replace_store_int32", Ty::Void),
        ("__pando__replace_store_int64", Ty::Void),
        ("__pando__replace_store_float32", Ty::Void),
        ("__pando__replace_store_ptr", Ty::Void),
        ("__pando__replace_store_vector", Ty::Void),
    ];
    for (name, ret) in runtime {
        m.add_function(name, ret);
    }
    m.add_global("G", false);
    let g = m.add_constant("G", Ty::Pointer);
    let wide = Ty::Vector(VecTy { lane: Lane::Int(32), lane_bytes: 4, lanes: 4 });
    for name in ["first", "second"] {
        let f = m.add_function(name, Ty::Void);
        let entry = m.add_block(f).unwrap();
        let exit = m.add_block(f).unwrap();
        let x = add(&mut m, entry, Opcode::Alloca, Ty::Pointer, &[]);
        let v = add(&mut m, entry, Opcode::Load, wide, &[Operand::Value(Value::Const(g))]);
        add(&mut m, entry, Opcode::Store, Ty::Void, &[result_of(v), result_of(x)]);
        add(&mut m, entry, Opcode::Other, Ty::Void, &[Operand::Block(exit)]);
        let n = add(&mut m, exit, Opcode::Load, Ty::Int(64), &[result_of(x)]);
        add(&mut m, exit, Opcode::Store, Ty::Void, &[result_of(n), param(0, Ty::Pointer)]);
        add(&mut m, exit, Opcode::Other, Ty::Void, &[result_of(n), result_of(v)]);
    }
    m
}

fn instructions(m: &Module) -> Vec<Instruction> {
    (0..m.instruction_count()).map(|i| m.instruction(i).unwrap()).collect()
}

fn blocks(m: &Module) -> Vec<Vec<usize>> {
    let mut all = Vec::new();
    let mut b = 0;
    while let Some(list) = m.block_instructions(b) {
        all.push(list);
        b += 1;
    }
    all
}

#[test]
fn replaying_the_edits_of_lowering_gives_the_lowered_module() {
    let mut lowered = program();
    let report = lower_module(&mut lowered).unwrap();
    assert!(report.edits.len() > 20);
    let mut copy = program();
    assert_eq!(copy.replay(&report.edits), report.edits.len());
    assert_eq!(instructions(&copy), instructions(&lowered));
    assert_eq!(blocks(&copy), blocks(&lowered));
}

#[test]
fn replaying_the_edits_of_globalization_gives_the_globalized_module() {
    let mut globalized = program();
    let report = globalize_module(&mut globalized).unwrap();
    assert_eq!(report.edits.len(), 4);
    let mut copy = program();
    assert_eq!(copy.replay(&report.edits), 4);
    assert_eq!(instructions(&copy), instructions(&globalized));
    assert_eq!(blocks(&copy), blocks(&globalized));
}

#[test]
fn scripts_of_two_passes_replay_one_after_the_other() {
    let mut m = program();
    let first = globalize_module(&mut m).unwrap();
    let second = lower_module(&mut m).unwrap();
    let mut copy = program();
    assert_eq!(copy.replay(&first.edits), first.edits.len());
    assert_eq!(copy.replay(&second.edits), second.edits.len());
    assert_eq!(instructions(&copy), instructions(&m));
    assert_eq!(blocks(&copy), blocks(&m));
}

#[test]
fn replay_stops_at_the_first_edit_that_is_not_admitted() {
    let mut m = program();
    let before = (instructions(&m), blocks(&m));
    let count = m.instruction_count();
    let script = vec![
        Edit::SetOperand { inst: 1, index: 0, operand: param(7, Ty::Pointer) },
        Edit::Erase { block: 0, pos: 0 },
        Edit::SetOperand { inst: 1, index: 0, operand: param(8, Ty::Pointer) },
    ];
    assert_eq!(m.replay(&script), 1);
    assert_eq!(m.instruction(1).unwrap().operands, vec![param(7, Ty::Pointer)]);
    assert_eq!(m.instruction_count(), count);
    assert_eq!(blocks(&m), before.1);
    assert!(!m.instruction(0).unwrap().erased);
}

#[test]
fn instruction_in_use_cannot_be_erased() {
    let mut m = program();
    assert!(!m.admits(&Edit::Erase { block: 0, pos: 0 }));
    assert!(!m.apply(&Edit::Erase { block: 0, pos: 1 }));
    assert!(m.admits(&Edit::Erase { block: 0, pos: 2 }));
    assert!(m.apply(&Edit::Erase { block: 0, pos: 2 }));
    assert!(m.instruction(2).unwrap().erased);
    assert_eq!(m.block_instructions(0), Some(vec![0, 1, 3]));
    assert!(!m.admits(&Edit::Erase { block: 0, pos: 3 }));
    assert!(!m.admits(&Edit::Erase { block: 9, pos: 0 }));
}

#[test]
fn uses_can_only_go_over_to_a_live_instruction_of_the_same_function() {
    let mut m = program();
    let other_function = 7;
    assert!(!m.admits(&Edit::ReplaceUses { from: 0, to: other_function }));
    assert!(!m.admits(&Edit::ReplaceUses { from: 0, to: 99 }));
    assert!(!m.admits(&Edit::ReplaceUses { from: 99, to: 0 }));
    assert!(m.apply(&Edit::Erase { block: 0, pos: 2 }));
    assert!(!m.admits(&Edit::ReplaceUses { from: 0, to: 2 }));
    assert!(m.apply(&Edit::ReplaceUses { from: 0, to: 1 }));
    assert_eq!(m.instruction(4).unwrap().operands, vec![result_of(1)]);
    assert_eq!(m.instruction(1).unwrap().operands, vec![Operand::Value(Value::Const(0))]);
    assert_eq!(m.instruction(7).unwrap().op, Opcode::Alloca);
    assert_eq!(m.instruction(11).unwrap().operands, vec![result_of(7)]);
}

#[test]
fn inserted_instruction_must_have_operands_of_its_function() {
    let mut m = program();
    let call = |operands: Vec<Operand>, block: usize, pos: usize| Edit::Insert {
        block,
        pos,
        op: Opcode::Call,
        ty: Ty::Void,
        slot: Ty::Void,
        operands,
    };
    assert!(!m.admits(&call(vec![result_of(7)], 0, 0)));
    assert!(!m.admits(&call(vec![Operand::Block(2)], 0, 0)));
    assert!(!m.admits(&call(vec![result_of(99)], 0, 0)));
    assert!(!m.admits(&call(vec![], 0, 5)));
    assert!(!m.admits(&call(vec![], 4, 0)));
    assert!(m.admits(&call(vec![], 0, 4)));
    let count = m.instruction_count();
    assert!(m.apply(&call(vec![result_of(4), Operand::Block(1)], 1, 1)));
    assert_eq!(m.block_instructions(1), Some(vec![4, count, 5, 6]));
    assert_eq!(m.instruction(count).unwrap().block, 1);
    assert_eq!(m.instruction(count).unwrap().operands, vec![result_of(4), Operand::Block(1)]);
}

#[test]
fn operand_can_only_be_set_where_there_is_one() {
    let mut m = program();
    assert!(!m.admits(&Edit::SetOperand { inst: 0, index: 0, operand: result_of(1) }));
    assert!(!m.admits(&Edit::SetOperand { inst: 2, index: 2, operand: result_of(1) }));
    assert!(!m.admits(&Edit::SetOperand { inst: 2, index: 1, operand: result_of(8) }));
    assert!(!m.admits(&Edit::SetOperand { inst: 99, index: 0, operand: result_of(1) }));
    assert!(m.apply(&Edit::SetOperand { inst: 2, index: 1, operand: result_of(4) }));
    assert_eq!(m.instruction(2).unwrap().operands, vec![result_of(1), result_of(4)]);
}
