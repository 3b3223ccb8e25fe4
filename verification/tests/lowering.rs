use load_store_pass::error::PassError;
use load_store_pass::lower::lower_module;
use load_store_pass::edit::Edit;
use load_store_pass::module::{Instruction, Module};
use load_store_pass::names::RuntimeOp;
use load_store_pass::report::Preserved;
use load_store_pass::types::{Lane, Opcode, Operand, Ty, Value, VecTy};

fn declare_runtime(m: &mut Module) {
    m.add_function("globalify", Ty::Pointer);
    m.add_function("deglobalify", Ty::Pointer);
    m.add_function("check_if_global", Ty::Int(1));
    m.add_function("__pando__replace_load_int8", Ty::Int(8));
    m.add_function("__pando__replace_load_int32", Ty::Int(32));
    m.add_function("__pando__replace_load_int64", Ty::Int(64));
    m.add_function("__pando__replace_load_float32", Ty::Float(32));
    m.add_function("__pando__replace_load_ptr", Ty::Pointer);
    m.add_function("__pando__replace_load_vector", Ty::Pointer);
    m.add_function("__pando__replace_store_int8", Ty::Void);
    m.add_function("__pando__replace_store_int32", Ty::Void);
    m.add_function("__pando__replace_store_int64", Ty::Void);
    m.add_function("__pando__replace_store_float32", Ty::Void);
    m.add_function("__pando__replace_store_ptr", Ty::Void);
    m.add_function("__pando__replace_store_vector", Ty::Void);
}

fn declare_runtime_with(m: &mut Module, changed: RuntimeOp, ret: Ty) {
    declare_runtime(m);
    let mut fresh = Module::new();
    for f in 0..m.function_count() {
        let name = name_of(f);
        let ty = if name == changed.symbol() { ret } else { ret_of(m, f) };
        fresh.add_function(name, ty);
    }
    *m = fresh;
}

fn name_of(f: usize) -> &'static str {
    [
        "globalify",
        "deglobalify",
        "check_if_global",
        "__pando__replace_load_int8",
        "__pando__replace_load_int32",
        "__pando__replace_load_int64",
        "__pando__replace_load_float32",
        "__pando__replace_load_ptr",
        "__pando__replace_load_vector",
        "__pando__replace_store_int8",
        "__pando__replace_store_int32",
        "__pando__replace_store_int64",
        "__pando__replace_store_float32",
        "__pando__replace_store_ptr",
        "__pando__replace_store_vector",
    ][f]
}

fn ret_of(_m: &Module, f: usize) -> Ty {
    [
        Ty::Pointer,
        Ty::Pointer,
        Ty::Int(1),
        Ty::Int(8),
        Ty::Int(32),
        Ty::Int(64),
        Ty::Float(32),
        Ty::Pointer,
        Ty::Pointer,
        Ty::Void,
        Ty::Void,
        Ty::Void,
        Ty::Void,
        Ty::Void,
        Ty::Void,
    ][f]
}

fn func(m: &Module, op: RuntimeOp) -> Operand {
    Operand::Value(Value::Func(m.find_function(op.symbol()).unwrap()))
}

fn result_of(i: usize) -> Operand {
    Operand::Value(Value::Inst(i))
}

fn param(index: usize, ty: Ty) -> Operand {
    Operand::Value(Value::Param { index, ty })
}

fn lit(bits: u32, value: u64) -> Operand {
    Operand::Value(Value::Int { bits, value })
}

fn quad() -> Ty {
    Ty::Vector(VecTy { lane: Lane::Float(32), lane_bytes: 4, lanes: 4 })
}

fn inst(m: &Module, i: usize) -> Instruction {
    m.instruction(i).unwrap()
}

fn add(m: &mut Module, block: usize, op: Opcode, ty: Ty, operands: &[Operand]) -> usize {
    let i = m.append_inst(block, op, ty).unwrap();
    for o in operands {
        assert!(m.push_operand(i, *o));
    }
    i
}

/// A module with the runtime functions and a function `main` of one block.
fn program() -> (Module, usize) {
    let mut m = Module::new();
    declare_runtime(&mut m);
    let main = m.add_function("main", Ty::Void);
    let block = m.add_block(main).unwrap();
    (m, block)
}

#[test]
fn store_of_i64_becomes_call_of_store_int64() {
    let (mut m, b) = program();
    let p = param(0, Ty::Pointer);
    let store = add(&mut m, b, Opcode::Store, Ty::Void, &[lit(64, 42), p]);
    let report = lower_module(&mut m).unwrap();
    let call = store + 1;
    assert!(report.modified);
    assert_eq!(m.instruction_count(), store + 2);
    assert_eq!(m.block_instructions(b), Some(vec![call]));
    let c = inst(&m, call);
    assert_eq!(c.op, Opcode::Call);
    assert_eq!(c.ty, Ty::Void);
    assert_eq!(c.block, b);
    assert!(!c.erased);
    assert_eq!(c.operands, vec![lit(64, 42), p, func(&m, RuntimeOp::StoreInt64)]);
    assert!(inst(&m, store).erased);
    assert_eq!(
        report.edits,
        vec![
            Edit::Insert {
                block: b,
                pos: 0,
                op: Opcode::Call,
                ty: Ty::Void,
                slot: Ty::Void,
                operands: vec![lit(64, 42), p, func(&m, RuntimeOp::StoreInt64)],
            },
            Edit::ReplaceUses { from: store, to: call },
            Edit::Erase { block: b, pos: 1 },
        ]
    );
}

#[test]
fn load_of_float_vector_becomes_call_and_reconstituting_load() {
    let (mut m, b) = program();
    let q = param(0, Ty::Pointer);
    let load = add(&mut m, b, Opcode::Load, quad(), &[q]);
    let user = add(&mut m, b, Opcode::Other, quad(), &[result_of(load), result_of(load)]);
    let report = lower_module(&mut m).unwrap();
    let call = user + 1;
    let whole = user + 2;
    assert!(report.modified);
    assert_eq!(m.block_instructions(b), Some(vec![call, whole, user]));
    let c = inst(&m, call);
    assert_eq!(c.op, Opcode::Call);
    assert_eq!(c.ty, Ty::Pointer);
    assert_eq!(c.operands, vec![q, lit(64, 4), lit(64, 4), func(&m, RuntimeOp::LoadVector)]);
    let w = inst(&m, whole);
    assert_eq!(w.op, Opcode::Load);
    assert_eq!(w.ty, quad());
    assert_eq!(w.operands, vec![result_of(call)]);
    assert_eq!(inst(&m, user).operands, vec![result_of(whole), result_of(whole)]);
    assert!(inst(&m, load).erased);
    assert_eq!(report.edits.len(), 4);
    assert_eq!(report.edits[2], Edit::ReplaceUses { from: load, to: whole });
    assert_eq!(report.edits[3], Edit::Erase { block: b, pos: 2 });
}

#[test]
fn vector_sizes_come_from_the_vector_type() {
    let (mut m, b) = program();
    let ty = Ty::Vector(VecTy { lane: Lane::Int(16), lane_bytes: 2, lanes: 8 });
    let load = add(&mut m, b, Opcode::Load, ty, &[param(0, Ty::Pointer)]);
    lower_module(&mut m).unwrap();
    let c = inst(&m, load + 1);
    assert_eq!(c.operands[1], lit(64, 2));
    assert_eq!(c.operands[2], lit(64, 8));
    assert_eq!(inst(&m, load + 2).ty, ty);
}

#[test]
fn alloca_is_followed_by_globalify_of_its_address() {
    let (mut m, b) = program();
    let x = add(&mut m, b, Opcode::Alloca, Ty::Pointer, &[]);
    assert!(m.set_slot(x, Ty::Int(32)));
    let first = add(&mut m, b, Opcode::Other, Ty::Void, &[result_of(x), lit(32, 1)]);
    let second = add(&mut m, b, Opcode::Other, Ty::Int(32), &[lit(32, 2), result_of(x)]);
    let report = lower_module(&mut m).unwrap();
    let call = second + 1;
    assert!(report.modified);
    assert_eq!(m.block_instructions(b), Some(vec![x, call, first, second]));
    let c = inst(&m, call);
    assert_eq!(c.op, Opcode::Call);
    assert_eq!(c.ty, Ty::Pointer);
    assert_eq!(c.operands, vec![result_of(x), func(&m, RuntimeOp::Globalify)]);
    assert_eq!(inst(&m, first).operands, vec![result_of(call), lit(32, 1)]);
    assert_eq!(inst(&m, second).operands, vec![lit(32, 2), result_of(call)]);
    let slot = inst(&m, x);
    assert!(!slot.erased);
    assert_eq!(slot.op, Opcode::Alloca);
    assert_eq!(slot.slot, Ty::Int(32));
    assert_eq!(
        report.edits,
        vec![
            Edit::Insert {
                block: b,
                pos: 1,
                op: Opcode::Call,
                ty: Ty::Pointer,
                slot: Ty::Void,
                operands: vec![result_of(x), func(&m, RuntimeOp::Globalify)],
            },
            Edit::ReplaceUses { from: x, to: call },
            Edit::SetOperand { inst: call, index: 0, operand: result_of(x) },
        ]
    );
}

#[test]
fn alloca_without_uses_is_still_globalified() {
    let (mut m, b) = program();
    let x = add(&mut m, b, Opcode::Alloca, Ty::Pointer, &[]);
    let report = lower_module(&mut m).unwrap();
    assert!(report.modified);
    assert_eq!(m.block_instructions(b), Some(vec![x, x + 1]));
    let c = inst(&m, x + 1);
    assert_eq!(c.op, Opcode::Call);
    assert_eq!(c.operands, vec![result_of(x), func(&m, RuntimeOp::Globalify)]);
    assert!(!inst(&m, x).erased);
}

#[test]
fn alloca_at_the_end_of_a_block_gets_its_call_behind_it() {
    let (mut m, b) = program();
    let other = add(&mut m, b, Opcode::Other, Ty::Void, &[]);
    let x = add(&mut m, b, Opcode::Alloca, Ty::Pointer, &[]);
    lower_module(&mut m).unwrap();
    assert_eq!(m.block_instructions(b), Some(vec![other, x, x + 1]));
}

#[test]
fn scalar_loads_take_the_function_of_their_type() {
    let cases = [
        (Ty::Pointer, RuntimeOp::LoadPtr, Ty::Pointer),
        (Ty::Int(8), RuntimeOp::LoadInt8, Ty::Int(8)),
        (Ty::Int(32), RuntimeOp::LoadInt32, Ty::Int(32)),
        (Ty::Int(64), RuntimeOp::LoadInt64, Ty::Int(64)),
        (Ty::Float(32), RuntimeOp::LoadFloat32, Ty::Float(32)),
        (Ty::Float(64), RuntimeOp::LoadFloat32, Ty::Float(32)),
    ];
    for (ty, op, ret) in cases {
        let (mut m, b) = program();
        let p = param(0, Ty::Pointer);
        let load = add(&mut m, b, Opcode::Load, ty, &[p]);
        let user = add(&mut m, b, Opcode::Other, Ty::Void, &[result_of(load)]);
        lower_module(&mut m).unwrap();
        let call = user + 1;
        assert_eq!(m.block_instructions(b), Some(vec![call, user]));
        let c = inst(&m, call);
        assert_eq!(c.op, Opcode::Call);
        assert_eq!(c.ty, ret);
        assert_eq!(c.operands, vec![p, func(&m, op)]);
        assert_eq!(inst(&m, user).operands, vec![result_of(call)]);
        assert!(inst(&m, load).erased);
    }
}

#[test]
fn scalar_stores_take_the_function_of_the_stored_value() {
    let cases = [
        (param(1, Ty::Pointer), RuntimeOp::StorePtr),
        (lit(8, 255), RuntimeOp::StoreInt8),
        (lit(32, 7), RuntimeOp::StoreInt32),
        (lit(64, u64::MAX), RuntimeOp::StoreInt64),
        (param(1, Ty::Float(32)), RuntimeOp::StoreFloat32),
        (param(1, Ty::Float(64)), RuntimeOp::StoreFloat32),
    ];
    for (stored, op) in cases {
        let (mut m, b) = program();
        let p = param(0, Ty::Pointer);
        let store = add(&mut m, b, Opcode::Store, Ty::Void, &[stored, p]);
        lower_module(&mut m).unwrap();
        let c = inst(&m, store + 1);
        assert_eq!(c.operands, vec![stored, p, func(&m, op)]);
        assert_eq!(m.block_instructions(b), Some(vec![store + 1]));
    }
}

#[test]
fn store_classifies_the_result_of_an_instruction_by_its_type() {
    let (mut m, b) = program();
    let v = add(&mut m, b, Opcode::Other, Ty::Int(8), &[]);
    let store = add(&mut m, b, Opcode::Store, Ty::Void, &[result_of(v), param(0, Ty::Pointer)]);
    lower_module(&mut m).unwrap();
    assert_eq!(inst(&m, store + 1).operands[2], func(&m, RuntimeOp::StoreInt8));
}

#[test]
fn store_of_vector_is_spilled_to_a_fresh_slot() {
    let (mut m, b) = program();
    let v = param(0, quad());
    let dest = param(1, Ty::Pointer);
    let store = add(&mut m, b, Opcode::Store, Ty::Void, &[v, dest]);
    let after = add(&mut m, b, Opcode::Other, Ty::Void, &[]);
    let report = lower_module(&mut m).unwrap();
    let buffer = after + 1;
    let spill = after + 2;
    let cast = after + 3;
    let call = after + 4;
    assert_eq!(m.block_instructions(b), Some(vec![buffer, spill, cast, call, after]));
    let a = inst(&m, buffer);
    assert_eq!((a.op, a.ty, a.slot), (Opcode::Alloca, Ty::Pointer, quad()));
    assert_eq!(a.operands, vec![]);
    let s = inst(&m, spill);
    assert_eq!((s.op, s.ty), (Opcode::Store, Ty::Void));
    assert_eq!(s.operands, vec![v, result_of(buffer)]);
    let k = inst(&m, cast);
    assert_eq!((k.op, k.ty), (Opcode::BitCast, Ty::Pointer));
    assert_eq!(k.operands, vec![result_of(buffer)]);
    let c = inst(&m, call);
    assert_eq!((c.op, c.ty), (Opcode::Call, Ty::Void));
    assert_eq!(
        c.operands,
        vec![result_of(cast), dest, lit(64, 4), lit(64, 4), func(&m, RuntimeOp::StoreVector)]
    );
    assert!(inst(&m, store).erased);
    assert_eq!(report.edits.len(), 6);
    assert_eq!(report.edits[5], Edit::Erase { block: b, pos: 4 });
}

#[test]
fn vector_store_and_load_pass_the_same_sizes() {
    let (mut m, b) = program();
    let ty = Ty::Vector(VecTy { lane: Lane::Int(64), lane_bytes: 8, lanes: 2 });
    let p = param(0, Ty::Pointer);
    let store = add(&mut m, b, Opcode::Store, Ty::Void, &[param(1, ty), p]);
    let load = add(&mut m, b, Opcode::Load, ty, &[p]);
    lower_module(&mut m).unwrap();
    let store_call = inst(&m, load + 4);
    let load_call = inst(&m, load + 5);
    assert_eq!(store_call.operands[4], func(&m, RuntimeOp::StoreVector));
    assert_eq!(load_call.operands[3], func(&m, RuntimeOp::LoadVector));
    assert_eq!(store_call.operands[1], load_call.operands[0]);
    assert_eq!(store_call.operands[2..4], load_call.operands[1..3]);
    assert_eq!(inst(&m, load + 1).slot, inst(&m, load + 6).ty);
    assert!(inst(&m, store).erased && inst(&m, load).erased);
}

#[test]
fn instructions_are_rewritten_in_program_order() {
    let (mut m, b) = program();
    let p = param(0, Ty::Pointer);
    let x = add(&mut m, b, Opcode::Alloca, Ty::Pointer, &[]);
    let load = add(&mut m, b, Opcode::Load, Ty::Int(32), &[result_of(x)]);
    let sum = add(&mut m, b, Opcode::Other, Ty::Int(32), &[result_of(load), lit(32, 1)]);
    let store = add(&mut m, b, Opcode::Store, Ty::Void, &[result_of(sum), result_of(x)]);
    assert_eq!(store, sum + 1);
    let ret = add(&mut m, b, Opcode::Other, Ty::Void, &[p]);
    let report = lower_module(&mut m).unwrap();
    let globalified = ret + 1;
    let loaded = ret + 2;
    let stored = ret + 3;
    assert_eq!(m.block_instructions(b), Some(vec![x, globalified, loaded, sum, stored, ret]));
    assert_eq!(
        inst(&m, globalified).operands,
        vec![result_of(x), func(&m, RuntimeOp::Globalify)]
    );
    assert_eq!(
        inst(&m, loaded).operands,
        vec![result_of(globalified), func(&m, RuntimeOp::LoadInt32)]
    );
    assert_eq!(inst(&m, sum).operands, vec![result_of(loaded), lit(32, 1)]);
    assert_eq!(
        inst(&m, stored).operands,
        vec![result_of(sum), result_of(globalified), func(&m, RuntimeOp::StoreInt32)]
    );
    assert_eq!(inst(&m, ret).operands, vec![p]);
    assert_eq!(report.edits.len(), 9);
}

#[test]
fn use_before_definition_in_block_order_is_redirected_too() {
    let mut m = Module::new();
    declare_runtime(&mut m);
    let main = m.add_function("main", Ty::Void);
    let first = m.add_block(main).unwrap();
    let second = m.add_block(main).unwrap();
    let user = m.append_inst(first, Opcode::Other, Ty::Int(64)).unwrap();
    let load = add(&mut m, second, Opcode::Load, Ty::Int(64), &[param(0, Ty::Pointer)]);
    assert!(m.push_operand(user, result_of(load)));
    assert!(m.push_operand(user, Operand::Block(second)));
    lower_module(&mut m).unwrap();
    assert_eq!(inst(&m, user).operands, vec![result_of(load + 1), Operand::Block(second)]);
    assert_eq!(m.block_instructions(first), Some(vec![user]));
    assert_eq!(m.block_instructions(second), Some(vec![load + 1]));
}

#[test]
fn bodies_of_runtime_functions_are_left_alone() {
    let mut m = Module::new();
    declare_runtime(&mut m);
    let mut kept = Vec::new();
    for f in 0..15 {
        let b = m.add_block(f).unwrap();
        let x = add(&mut m, b, Opcode::Alloca, Ty::Pointer, &[]);
        let l = add(&mut m, b, Opcode::Load, Ty::Int(64), &[result_of(x)]);
        let s = add(&mut m, b, Opcode::Store, Ty::Void, &[result_of(l), result_of(x)]);
        kept.push((b, vec![x, l, s]));
    }
    let before = m.instruction_count();
    let report = lower_module(&mut m).unwrap();
    assert!(!report.modified);
    assert_eq!(report.edits, vec![]);
    assert_eq!(report.preserved(), Preserved::All);
    assert_eq!(m.instruction_count(), before);
    for (b, list) in kept {
        assert_eq!(m.block_instructions(b), Some(list));
    }
}

#[test]
fn module_without_memory_instructions_is_not_modified() {
    let (mut m, b) = program();
    let a = add(&mut m, b, Opcode::Other, Ty::Int(32), &[lit(32, 1), lit(32, 2)]);
    let callee = func(&m, RuntimeOp::Globalify);
    let c = add(&mut m, b, Opcode::Call, Ty::Pointer, &[result_of(a), callee]);
    let report = lower_module(&mut m).unwrap();
    assert!(!report.modified);
    assert!(report.edits.is_empty());
    assert_eq!(report.preserved(), Preserved::All);
    assert_eq!(m.block_instructions(b), Some(vec![a, c]));
}

#[test]
fn modified_module_invalidates_all_analyses() {
    let (mut m, b) = program();
    add(&mut m, b, Opcode::Load, Ty::Int(8), &[param(0, Ty::Pointer)]);
    let report = lower_module(&mut m).unwrap();
    assert!(report.modified);
    assert_eq!(report.preserved(), Preserved::Nothing);
}

#[test]
fn no_load_or_store_is_left_in_a_plain_module() {
    let mut m = Module::new();
    declare_runtime(&mut m);
    let mut blocks = Vec::new();
    for name in ["f", "g", "h"] {
        let f = m.add_function(name, Ty::Void);
        for _ in 0..3 {
            let b = m.add_block(f).unwrap();
            let p = add(&mut m, b, Opcode::Load, Ty::Pointer, &[param(0, Ty::Pointer)]);
            let v = add(&mut m, b, Opcode::Load, Ty::Int(64), &[result_of(p)]);
            add(&mut m, b, Opcode::Store, Ty::Void, &[result_of(v), result_of(p)]);
            add(&mut m, b, Opcode::Other, Ty::Void, &[result_of(v)]);
            blocks.push(b);
        }
    }
    lower_module(&mut m).unwrap();
    for b in blocks {
        let list = m.block_instructions(b).unwrap();
        assert_eq!(list.len(), 4);
        for i in list {
            let op = inst(&m, i).op;
            assert!(op != Opcode::Load && op != Opcode::Store && op != Opcode::Alloca);
        }
    }
}

#[test]
fn every_use_keeps_its_category() {
    let (mut m, b) = program();
    let x = add(&mut m, b, Opcode::Alloca, Ty::Pointer, &[]);
    let lp = add(&mut m, b, Opcode::Load, Ty::Pointer, &[result_of(x)]);
    let li = add(&mut m, b, Opcode::Load, Ty::Int(8), &[result_of(lp)]);
    let lf = add(&mut m, b, Opcode::Load, Ty::Float(32), &[result_of(lp)]);
    let lv = add(&mut m, b, Opcode::Load, quad(), &[result_of(lp)]);
    let user = add(
        &mut m,
        b,
        Opcode::Other,
        Ty::Void,
        &[result_of(x), result_of(lp), result_of(li), result_of(lf), result_of(lv)],
    );
    lower_module(&mut m).unwrap();
    let types: Vec<Ty> = inst(&m, user)
        .operands
        .iter()
        .map(|o| match o {
            Operand::Value(Value::Inst(i)) => inst(&m, *i).ty,
            _ => Ty::Void,
        })
        .collect();
    assert_eq!(types, vec![Ty::Pointer, Ty::Pointer, Ty::Int(8), Ty::Float(32), quad()]);
}

#[test]
fn load_of_unsupported_width_fails() {
    let (mut m, b) = program();
    let load = add(&mut m, b, Opcode::Load, Ty::Int(16), &[param(0, Ty::Pointer)]);
    assert_eq!(
        lower_module(&mut m).unwrap_err(),
        PassError::UnsupportedWidth { inst: load, bits: 16 }
    );
}

#[test]
fn store_of_unsupported_width_fails() {
    let (mut m, b) = program();
    let store = add(&mut m, b, Opcode::Store, Ty::Void, &[lit(1, 1), param(0, Ty::Pointer)]);
    assert_eq!(
        lower_module(&mut m).unwrap_err(),
        PassError::UnsupportedWidth { inst: store, bits: 1 }
    );
}

#[test]
fn load_or_store_of_aggregate_fails() {
    let (mut m, b) = program();
    let load = add(&mut m, b, Opcode::Load, Ty::Aggregate, &[param(0, Ty::Pointer)]);
    assert_eq!(lower_module(&mut m).unwrap_err(), PassError::UnsupportedCategory { inst: load });
    let (mut m, b) = program();
    let store = add(
        &mut m,
        b,
        Opcode::Store,
        Ty::Void,
        &[param(1, Ty::Aggregate), param(0, Ty::Pointer)],
    );
    assert_eq!(lower_module(&mut m).unwrap_err(), PassError::UnsupportedCategory { inst: store });
}

#[test]
fn load_from_something_that_is_no_pointer_fails() {
    let (mut m, b) = program();
    let load = add(&mut m, b, Opcode::Load, Ty::Int(64), &[lit(64, 4096)]);
    assert_eq!(lower_module(&mut m).unwrap_err(), PassError::BadAddress { inst: load });
}

#[test]
fn load_or_store_without_its_operands_fails() {
    let (mut m, b) = program();
    let load = add(&mut m, b, Opcode::Load, Ty::Int(64), &[]);
    assert_eq!(lower_module(&mut m).unwrap_err(), PassError::MissingOperand { inst: load });
    let (mut m, b) = program();
    let load = add(&mut m, b, Opcode::Load, Ty::Int(64), &[Operand::Block(b)]);
    assert_eq!(lower_module(&mut m).unwrap_err(), PassError::MissingOperand { inst: load });
    let (mut m, b) = program();
    let store = add(&mut m, b, Opcode::Store, Ty::Void, &[lit(64, 1)]);
    assert_eq!(lower_module(&mut m).unwrap_err(), PassError::MissingOperand { inst: store });
    let (mut m, b) = program();
    let store = add(&mut m, b, Opcode::Store, Ty::Void, &[lit(64, 1), Operand::Block(b)]);
    assert_eq!(lower_module(&mut m).unwrap_err(), PassError::MissingOperand { inst: store });
}

#[test]
fn runtime_function_that_hands_back_a_vector_is_refused() {
    let mut m = Module::new();
    declare_runtime_with(&mut m, RuntimeOp::LoadInt64, quad());
    let main = m.add_function("main", Ty::Void);
    let b = m.add_block(main).unwrap();
    let load = add(&mut m, b, Opcode::Load, Ty::Int(64), &[param(0, Ty::Pointer)]);
    assert_eq!(lower_module(&mut m).unwrap_err(), PassError::UnexpectedReturn { inst: load });

    let mut m = Module::new();
    declare_runtime_with(&mut m, RuntimeOp::StoreInt8, Ty::Aggregate);
    let main = m.add_function("main", Ty::Void);
    let b = m.add_block(main).unwrap();
    let store = add(&mut m, b, Opcode::Store, Ty::Void, &[lit(8, 1), param(0, Ty::Pointer)]);
    assert_eq!(lower_module(&mut m).unwrap_err(), PassError::UnexpectedReturn { inst: store });
}

#[test]
fn vector_load_needs_a_pointer_from_its_function() {
    let mut m = Module::new();
    declare_runtime_with(&mut m, RuntimeOp::LoadVector, Ty::Int(64));
    let main = m.add_function("main", Ty::Void);
    let b = m.add_block(main).unwrap();
    let load = add(&mut m, b, Opcode::Load, quad(), &[param(0, Ty::Pointer)]);
    assert_eq!(lower_module(&mut m).unwrap_err(), PassError::UnexpectedReturn { inst: load });
}

#[test]
fn globalify_must_hand_back_a_pointer_for_an_alloca() {
    let mut m = Module::new();
    declare_runtime_with(&mut m, RuntimeOp::Globalify, Ty::Int(64));
    let main = m.add_function("main", Ty::Void);
    let b = m.add_block(main).unwrap();
    let x = add(&mut m, b, Opcode::Alloca, Ty::Pointer, &[]);
    assert_eq!(lower_module(&mut m).unwrap_err(), PassError::UnexpectedReturn { inst: x });
}

#[test]
fn call_that_hands_back_nothing_is_its_own_value() {
    let mut m = Module::new();
    declare_runtime_with(&mut m, RuntimeOp::LoadVector, Ty::Void);
    let main = m.add_function("main", Ty::Void);
    let b = m.add_block(main).unwrap();
    let load = add(&mut m, b, Opcode::Load, quad(), &[param(0, Ty::Pointer)]);
    let user = add(&mut m, b, Opcode::Other, Ty::Void, &[result_of(load)]);
    lower_module(&mut m).unwrap();
    assert_eq!(m.block_instructions(b), Some(vec![user + 1, user]));
    assert_eq!(inst(&m, user).operands, vec![result_of(user + 1)]);
    assert_eq!(inst(&m, user + 1).ty, Ty::Void);
}

#[test]
fn missing_runtime_function_stops_the_pass_before_any_change() {
    let mut m = Module::new();
    m.add_function("globalify", Ty::Pointer);
    let main = m.add_function("main", Ty::Void);
    let b = m.add_block(main).unwrap();
    let load = add(&mut m, b, Opcode::Load, Ty::Int(64), &[param(0, Ty::Pointer)]);
    assert_eq!(
        lower_module(&mut m).unwrap_err(),
        PassError::MissingFunction(RuntimeOp::LoadInt64)
    );
    assert_eq!(m.block_instructions(b), Some(vec![load]));
    assert_eq!(m.instruction_count(), 1);
    assert!(!inst(&m, load).erased);
}

#[test]
fn first_failure_in_program_order_is_reported() {
    let (mut m, b) = program();
    let good = add(&mut m, b, Opcode::Load, Ty::Int(64), &[param(0, Ty::Pointer)]);
    let bad = add(&mut m, b, Opcode::Load, Ty::Int(2), &[param(0, Ty::Pointer)]);
    add(&mut m, b, Opcode::Load, Ty::Aggregate, &[param(0, Ty::Pointer)]);
    assert_eq!(
        lower_module(&mut m).unwrap_err(),
        PassError::UnsupportedWidth { inst: bad, bits: 2 }
    );
    assert!(inst(&m, good).erased);
    assert!(!inst(&m, bad).erased);
}

#[test]
fn lowering_an_already_lowered_module_touches_only_what_is_left() {
    let (mut m, b) = program();
    let x = add(&mut m, b, Opcode::Alloca, Ty::Pointer, &[]);
    let load = add(&mut m, b, Opcode::Load, Ty::Int(64), &[result_of(x)]);
    lower_module(&mut m).unwrap();
    let first = m.block_instructions(b).unwrap();
    assert_eq!(first, vec![x, load + 1, load + 2]);
    let report = lower_module(&mut m).unwrap();
    assert!(report.modified);
    assert_eq!(m.block_instructions(b), Some(vec![x, load + 3, load + 1, load + 2]));
}
