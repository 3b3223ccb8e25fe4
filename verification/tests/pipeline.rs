use load_store_pass::module::Module;
use load_store_pass::pipeline::{parse_pipeline_name, PassKind, PipelineParsing};
use load_store_pass::report::Preserved;
use load_store_pass::types::{Opcode, Operand, Ty, Value};

fn program() -> (Module, usize) {
    let mut m = Module::new();
    let names = [
        ("globalify", Ty::Pointer),
        ("deglobalify", Ty::Pointer),
        ("check_if_global", Ty::Int(1)),
        ("__pando__replace_load_int8", Ty::Int(8)),
        ("__pando__replace_load_int32", Ty::Int(32)),
        ("__pando__replace_load_int64", Ty::Int(64)),
        ("__pando__replace_load_float32", Ty::Float(32)),
        ("__pando__replace_load_ptr", Ty::Pointer),
        ("__pando__replace_load_vector", Ty::Pointer),
        ("__pando__replace_store_int8", Ty::Void),
        ("__pando__replace_store_int32", Ty::Void),
        ("__pando__replace_store_int64", Ty::Void),
        ("__pando__replace_store_float32", Ty::Void),
        ("__pando__replace_store_ptr", Ty::Void),
        ("__pando__replace_store_vector", Ty::Void),
    ];
    for (name, ret) in names {
        m.add_function(name, ret);
    }
    m.add_global("G", false);
    let g = m.add_constant("G", Ty::Pointer);
    let main = m.add_function("main", Ty::Void);
    let b = m.add_block(main).unwrap();
    let load = m.append_inst(b, Opcode::Load, Ty::Int(64)).unwrap();
    assert!(m.push_operand(load, Operand::Value(Value::Const(g))));
    (m, b)
}

#[test]
fn pass_names_are_parsed() {
    assert_eq!(
        parse_pipeline_name("load-store-pass"),
        PipelineParsing::Parsed(PassKind::LoadStore)
    );
    assert_eq!(
        parse_pipeline_name("global-var-ptr-pass"),
        PipelineParsing::Parsed(PassKind::GlobalVarPtr)
    );
    assert_eq!(PassKind::LoadStore.pipeline_name(), "load-store-pass");
    assert_eq!(PassKind::GlobalVarPtr.pipeline_name(), "global-var-ptr-pass");
}

#[test]
fn other_names_are_left_to_other_registrants() {
    for name in ["", "load-store", "load-store-pass ", "Load-Store-Pass", "instcombine", "globalify"] {
        assert_eq!(parse_pipeline_name(name), PipelineParsing::NotParsed);
    }
}

#[test]
fn pass_runs_under_its_kind() {
    let (mut m, b) = program();
    let report = PassKind::LoadStore.run(&mut m).unwrap();
    assert_eq!(report.preserved(), Preserved::Nothing);
    assert_eq!(m.block_instructions(b), Some(vec![1]));
    assert_eq!(m.instruction(1).unwrap().op, Opcode::Call);

    let (mut m, b) = program();
    let report = PassKind::GlobalVarPtr.run(&mut m).unwrap();
    assert_eq!(report.preserved(), Preserved::Nothing);
    assert_eq!(m.block_instructions(b), Some(vec![1, 0]));
    assert_eq!(m.instruction(0).unwrap().op, Opcode::Load);
}

#[test]
fn passes_compose_lowering_after_globalization() {
    let (mut m, b) = program();
    PassKind::GlobalVarPtr.run(&mut m).unwrap();
    let report = PassKind::LoadStore.run(&mut m).unwrap();
    assert_eq!(report.edits.len(), 3);
    assert_eq!(m.block_instructions(b), Some(vec![1, 2]));
    let call = m.instruction(2).unwrap();
    assert_eq!(call.operands[0], Operand::Value(Value::Inst(1)));
    let again = PassKind::GlobalVarPtr.run(&mut m).unwrap();
    assert_eq!(again.preserved(), Preserved::All);
}
