use load_store_pass::error::PassError;
use load_store_pass::globalize::{globalize_at, globalize_module, is_exempt, is_globalizable};
use load_store_pass::edit::Edit;
use load_store_pass::module::{Instruction, Module};
use load_store_pass::names::RuntimeOp;
use load_store_pass::report::Preserved;
use load_store_pass::table::resolve;
use load_store_pass::types::{Opcode, Operand, Ty, Value};

fn declare_runtime(m: &mut Module, globalify: Ty) {
    m.add_function("globalify", globalify);
    m.add_function("deglobalify", Ty::Pointer);
    m.add_function("check_if_global", Ty::Int(1));
    m.add_function("__pando__replace_load_int8", Ty::Int(8));
    m.add_function("__pando__replace_load_int32", Ty::Int(32));
    m.add_function("__pando__replace_load_int64", Ty::Int(64));
    m.add_function("__pando__replace_load_float32", Ty::Float(32));
    m.add_function("__pando__replace_load_ptr", Ty::Pointer);
    m.add_function("__pando__replace_load_vector", Ty::Pointer);
    m.add_function("__pando__replace_store_int8", Ty::Void);
    m.add_function("__pando__replace_store_int32", Ty::Void);
    m.add_function("__pando__replace_store_int64", Ty::Void);
    m.add_function("__pando__replace_store_float32", Ty::Void);
    m.add_function("__pando__replace_store_ptr", Ty::Void);
    m.add_function("__pando__replace_store_vector", Ty::Void);
}

fn globalify(m: &Module) -> Operand {
    Operand::Value(Value::Func(m.find_function("globalify").unwrap()))
}

fn result_of(i: usize) -> Operand {
    Operand::Value(Value::Inst(i))
}

fn constant(c: usize) -> Operand {
    Operand::Value(Value::Const(c))
}

fn number(bits: u32, value: u64) -> Operand {
    Operand::Value(Value::Int { bits, value })
}

fn inst(m: &Module, i: usize) -> Instruction {
    m.instruction(i).unwrap()
}

fn add(m: &mut Module, block: usize, op: Opcode, ty: Ty, operands: &[Operand]) -> usize {
    let i = m.append_inst(block, op, ty).unwrap();
    for o in operands {
        assert!(m.push_operand(i, *o));
    }
    i
}

fn snapshot(m: &Module) -> Vec<Instruction> {
    (0..m.instruction_count()).map(|i| inst(m, i)).collect()
}

/// A module with the runtime functions, a global `G` with a constant that
/// points to it, and a function `main` of one block.
fn program() -> (Module, usize, usize) {
    let mut m = Module::new();
    declare_runtime(&mut m, Ty::Pointer);
    m.add_global("G", false);
    let g = m.add_constant("G", Ty::Pointer);
    let main = m.add_function("main", Ty::Void);
    let block = m.add_block(main).unwrap();
    (m, block, g)
}

#[test]
fn pointer_to_named_global_becomes_call_of_globalify() {
    let (mut m, b, g) = program();
    let user = add(&mut m, b, Opcode::Other, Ty::Int(32), &[constant(g), number(32, 5)]);
    let report = globalize_module(&mut m).unwrap();
    let call = user + 1;
    assert!(report.modified);
    assert_eq!(report.preserved(), Preserved::Nothing);
    assert_eq!(m.block_instructions(b), Some(vec![call, user]));
    let c = inst(&m, call);
    assert_eq!(c.op, Opcode::Call);
    assert_eq!(c.ty, Ty::Pointer);
    assert_eq!(c.block, b);
    assert_eq!(c.operands, vec![constant(g), globalify(&m)]);
    assert_eq!(inst(&m, user).operands, vec![result_of(call), number(32, 5)]);
    assert_eq!(
        report.edits,
        vec![
            Edit::Insert {
                block: b,
                pos: 0,
                op: Opcode::Call,
                ty: Ty::Pointer,
                slot: Ty::Void,
                operands: vec![constant(g), globalify(&m)],
            },
            Edit::SetOperand { inst: user, index: 0, operand: result_of(call) },
        ]
    );
}

#[test]
fn anonymous_constant_is_left_alone() {
    let (mut m, b, _) = program();
    m.add_global("", false);
    let anonymous = m.add_constant("", Ty::Pointer);
    let user = add(&mut m, b, Opcode::Other, Ty::Void, &[constant(anonymous)]);
    let report = globalize_module(&mut m).unwrap();
    assert!(!report.modified);
    assert!(report.edits.is_empty());
    assert_eq!(report.preserved(), Preserved::All);
    assert_eq!(m.block_instructions(b), Some(vec![user]));
    assert_eq!(inst(&m, user).operands, vec![constant(anonymous)]);
}

#[test]
fn constant_that_names_no_known_global_is_left_alone() {
    let (mut m, b, _) = program();
    let unknown = m.add_constant("H", Ty::Pointer);
    let close = m.add_constant("g", Ty::Pointer);
    let function = m.add_constant("main", Ty::Pointer);
    let user = add(
        &mut m,
        b,
        Opcode::Other,
        Ty::Void,
        &[constant(unknown), constant(close), constant(function)],
    );
    let report = globalize_module(&mut m).unwrap();
    assert!(!report.modified);
    assert_eq!(
        inst(&m, user).operands,
        vec![constant(unknown), constant(close), constant(function)]
    );
}

#[test]
fn only_pointers_are_globalized() {
    let (mut m, b, _) = program();
    let number_named_g = m.add_constant("G", Ty::Int(64));
    let user = add(&mut m, b, Opcode::Other, Ty::Void, &[constant(number_named_g)]);
    let report = globalize_module(&mut m).unwrap();
    assert!(!report.modified);
    assert_eq!(inst(&m, user).operands, vec![constant(number_named_g)]);
}

#[test]
fn operand_predicate_tells_globals_apart() {
    let (mut m, b, g) = program();
    let other = m.add_constant("H", Ty::Pointer);
    let anonymous = m.add_constant("", Ty::Pointer);
    let i = add(&mut m, b, Opcode::Other, Ty::Pointer, &[]);
    assert!(is_globalizable(&m, constant(g)));
    assert!(!is_globalizable(&m, constant(other)));
    assert!(!is_globalizable(&m, constant(anonymous)));
    assert!(!is_globalizable(&m, result_of(i)));
    assert!(!is_globalizable(&m, globalify(&m)));
    assert!(!is_globalizable(&m, number(64, 0)));
    assert!(!is_globalizable(&m, Operand::Block(b)));
    assert!(!is_globalizable(&m, Operand::Value(Value::Param { index: 0, ty: Ty::Pointer })));
}

#[test]
fn each_globalizable_operand_gets_its_own_call_in_operand_order() {
    let (mut m, b, g) = program();
    m.add_global("H", true);
    let h = m.add_constant("H", Ty::Pointer);
    let before = add(&mut m, b, Opcode::Other, Ty::Void, &[]);
    let user = add(
        &mut m,
        b,
        Opcode::Other,
        Ty::Void,
        &[constant(h), number(8, 1), constant(g), constant(h)],
    );
    let after = add(&mut m, b, Opcode::Other, Ty::Void, &[]);
    let report = globalize_module(&mut m).unwrap();
    let (first, second, third) = (after + 1, after + 2, after + 3);
    assert_eq!(m.block_instructions(b), Some(vec![before, first, second, third, user, after]));
    assert_eq!(inst(&m, first).operands, vec![constant(h), globalify(&m)]);
    assert_eq!(inst(&m, second).operands, vec![constant(g), globalify(&m)]);
    assert_eq!(inst(&m, third).operands, vec![constant(h), globalify(&m)]);
    assert_eq!(
        inst(&m, user).operands,
        vec![result_of(first), number(8, 1), result_of(second), result_of(third)]
    );
    assert_eq!(report.edits.len(), 6);
    assert_eq!(
        report.edits[5],
        Edit::SetOperand { inst: user, index: 3, operand: result_of(third) }
    );
}

#[test]
fn call_of_assertion_failure_keeps_all_operands() {
    let (mut m, b, g) = program();
    let fail = m.add_function("__assert_fail", Ty::Void);
    let callee = Operand::Value(Value::Func(fail));
    let operands = [constant(g), constant(g), number(32, 17), constant(g), callee];
    let call = add(&mut m, b, Opcode::Call, Ty::Void, &operands);
    let report = globalize_module(&mut m).unwrap();
    assert!(!report.modified);
    assert!(report.edits.is_empty());
    assert_eq!(m.block_instructions(b), Some(vec![call]));
    assert_eq!(inst(&m, call).operands, operands.to_vec());
}

#[test]
fn only_the_called_function_exempts_a_call() {
    let (mut m, b, g) = program();
    let fail = m.add_function("__assert_fail", Ty::Void);
    let other = m.add_function("report", Ty::Void);
    let passes_it_on = add(
        &mut m,
        b,
        Opcode::Call,
        Ty::Void,
        &[
            constant(g),
            Operand::Value(Value::Func(fail)),
            Operand::Value(Value::Func(other)),
        ],
    );
    let no_call = add(
        &mut m,
        b,
        Opcode::Other,
        Ty::Void,
        &[constant(g), Operand::Value(Value::Func(fail))],
    );
    let t = resolve(&m).unwrap();
    assert!(!is_exempt(&m, &t, passes_it_on));
    assert!(!is_exempt(&m, &t, no_call));
    globalize_module(&mut m).unwrap();
    assert_eq!(inst(&m, passes_it_on).operands[0], result_of(no_call + 1));
    assert_eq!(inst(&m, no_call).operands[0], result_of(no_call + 2));
}

#[test]
fn call_of_globalify_keeps_its_argument() {
    let (mut m, b, g) = program();
    let callee = globalify(&m);
    let call = add(&mut m, b, Opcode::Call, Ty::Pointer, &[constant(g), callee]);
    let t = resolve(&m).unwrap();
    assert!(is_exempt(&m, &t, call));
    let report = globalize_module(&mut m).unwrap();
    assert!(!report.modified);
    assert_eq!(inst(&m, call).operands, vec![constant(g), callee]);
}

#[test]
fn second_run_changes_nothing() {
    let (mut m, b, g) = program();
    m.add_global("H", true);
    let h = m.add_constant("H", Ty::Pointer);
    let second_block = {
        let main = m.find_function("main").unwrap();
        m.add_block(main).unwrap()
    };
    add(&mut m, b, Opcode::Other, Ty::Void, &[constant(g), constant(h), Operand::Block(second_block)]);
    add(&mut m, second_block, Opcode::Store, Ty::Void, &[number(64, 1), constant(g)]);
    add(&mut m, second_block, Opcode::Other, Ty::Void, &[Operand::Block(b)]);
    let first = globalize_module(&mut m).unwrap();
    assert!(first.modified);
    assert_eq!(first.edits.len(), 6);
    let blocks = (m.block_instructions(b), m.block_instructions(second_block));
    let instructions = snapshot(&m);
    let second = globalize_module(&mut m).unwrap();
    assert!(!second.modified);
    assert_eq!(second.edits, vec![]);
    assert_eq!(second.preserved(), Preserved::All);
    assert_eq!((m.block_instructions(b), m.block_instructions(second_block)), blocks);
    assert_eq!(snapshot(&m), instructions);
}

#[test]
fn blocks_that_refer_to_each_other_are_each_worked_on_once() {
    let (mut m, entry, g) = program();
    let main = m.find_function("main").unwrap();
    let head = m.add_block(main).unwrap();
    let body = m.add_block(main).unwrap();
    let exit = m.add_block(main).unwrap();
    let jump = add(&mut m, entry, Opcode::Other, Ty::Void, &[Operand::Block(head)]);
    let counter = m.append_inst(head, Opcode::Other, Ty::Int(64)).unwrap();
    let test = add(
        &mut m,
        head,
        Opcode::Other,
        Ty::Void,
        &[result_of(counter), Operand::Block(body), Operand::Block(exit)],
    );
    let next = add(&mut m, body, Opcode::Other, Ty::Int(64), &[result_of(counter), constant(g)]);
    let back = add(&mut m, body, Opcode::Other, Ty::Void, &[Operand::Block(head)]);
    assert!(m.push_operand(counter, number(64, 0)));
    assert!(m.push_operand(counter, Operand::Block(entry)));
    assert!(m.push_operand(counter, result_of(next)));
    assert!(m.push_operand(counter, Operand::Block(body)));
    let done = add(&mut m, exit, Opcode::Other, Ty::Void, &[constant(g)]);
    let report = globalize_module(&mut m).unwrap();
    assert_eq!(report.edits.len(), 4);
    assert_eq!(m.instruction_count(), done + 3);
    assert_eq!(m.block_instructions(entry), Some(vec![jump]));
    assert_eq!(m.block_instructions(head), Some(vec![counter, test]));
    assert_eq!(m.block_instructions(body), Some(vec![done + 1, next, back]));
    assert_eq!(m.block_instructions(exit), Some(vec![done + 2, done]));
    assert_eq!(inst(&m, next).operands, vec![result_of(counter), result_of(done + 1)]);
    assert_eq!(inst(&m, done).operands, vec![result_of(done + 2)]);
}

#[test]
fn functions_are_globalized_in_order_and_runtime_functions_skipped() {
    let mut m = Module::new();
    declare_runtime(&mut m, Ty::Pointer);
    m.add_global("G", false);
    let g = m.add_constant("G", Ty::Pointer);
    let wrapper = m.find_function("__pando__replace_load_ptr").unwrap();
    let wb = m.add_block(wrapper).unwrap();
    let inside = add(&mut m, wb, Opcode::Other, Ty::Pointer, &[constant(g)]);
    let f = m.add_function("f", Ty::Void);
    let h = m.add_function("h", Ty::Void);
    let hb = m.add_block(h).unwrap();
    let fb = m.add_block(f).unwrap();
    let in_h = add(&mut m, hb, Opcode::Other, Ty::Void, &[constant(g)]);
    let in_f = add(&mut m, fb, Opcode::Other, Ty::Void, &[constant(g)]);
    globalize_module(&mut m).unwrap();
    assert_eq!(m.block_instructions(wb), Some(vec![inside]));
    assert_eq!(inst(&m, inside).operands, vec![constant(g)]);
    assert_eq!(m.block_instructions(fb), Some(vec![in_f + 1, in_f]));
    assert_eq!(m.block_instructions(hb), Some(vec![in_f + 2, in_h]));
}

#[test]
fn one_instruction_can_be_globalized_by_itself() {
    let (mut m, b, g) = program();
    let first = add(&mut m, b, Opcode::Other, Ty::Void, &[constant(g)]);
    let second = add(&mut m, b, Opcode::Other, Ty::Void, &[constant(g)]);
    let t = resolve(&m).unwrap();
    let mut log = Vec::new();
    assert_eq!(globalize_at(&mut m, &t, b, 1, &mut log), Ok(()));
    assert_eq!(m.block_instructions(b), Some(vec![first, second + 1, second]));
    assert_eq!(inst(&m, first).operands, vec![constant(g)]);
    assert_eq!(inst(&m, second).operands, vec![result_of(second + 1)]);
    assert_eq!(log.len(), 2);
}

#[test]
fn globalify_must_hand_back_a_pointer_for_an_operand() {
    let mut m = Module::new();
    declare_runtime(&mut m, Ty::Void);
    m.add_global("G", false);
    let g = m.add_constant("G", Ty::Pointer);
    let main = m.add_function("main", Ty::Void);
    let b = m.add_block(main).unwrap();
    let quiet = add(&mut m, b, Opcode::Other, Ty::Void, &[number(8, 0)]);
    let user = add(&mut m, b, Opcode::Other, Ty::Void, &[constant(g)]);
    assert_eq!(globalize_module(&mut m).unwrap_err(), PassError::UnexpectedReturn { inst: user });
    assert_eq!(m.block_instructions(b), Some(vec![quiet, user]));
}

#[test]
fn globalization_needs_the_runtime_functions() {
    let mut m = Module::new();
    m.add_global("G", false);
    let g = m.add_constant("G", Ty::Pointer);
    let main = m.add_function("main", Ty::Void);
    let b = m.add_block(main).unwrap();
    let user = add(&mut m, b, Opcode::Other, Ty::Void, &[constant(g)]);
    assert_eq!(
        globalize_module(&mut m).unwrap_err(),
        PassError::MissingFunction(RuntimeOp::Globalify)
    );
    assert_eq!(inst(&m, user).operands, vec![constant(g)]);
}
