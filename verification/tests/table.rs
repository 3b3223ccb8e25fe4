use load_store_pass::error::PassError;
use load_store_pass::module::Module;
use load_store_pass::names::RuntimeOp;
use load_store_pass::table::resolve;
use load_store_pass::types::Ty;

const ORDER: [RuntimeOp; 15] = [
    RuntimeOp::Globalify,
    RuntimeOp::LoadInt64,
    RuntimeOp::LoadInt32,
    RuntimeOp::LoadInt8,
    RuntimeOp::LoadFloat32,
    RuntimeOp::LoadPtr,
    RuntimeOp::LoadVector,
    RuntimeOp::StoreInt64,
    RuntimeOp::StoreInt32,
    RuntimeOp::StoreInt8,
    RuntimeOp::StoreFloat32,
    RuntimeOp::StorePtr,
    RuntimeOp::StoreVector,
    RuntimeOp::Deglobalify,
    RuntimeOp::CheckIfGlobal,
];

fn declare_all_but(m: &mut Module, skipped: &[RuntimeOp]) {
    for op in ORDER {
        if !skipped.contains(&op) {
            m.add_function(op.symbol(), Ty::Void);
        }
    }
}

#[test]
fn table_of_complete_module_holds_each_function() {
    let mut m = Module::new();
    m.add_function("main", Ty::Void);
    declare_all_but(&mut m, &[]);
    let t = resolve(&m).unwrap();
    assert_eq!(t.globalify, 1);
    assert_eq!(t.load_int64, 2);
    assert_eq!(t.load_int32, 3);
    assert_eq!(t.load_int8, 4);
    assert_eq!(t.load_float32, 5);
    assert_eq!(t.load_ptr, 6);
    assert_eq!(t.load_vector, 7);
    assert_eq!(t.store_int64, 8);
    assert_eq!(t.store_int32, 9);
    assert_eq!(t.store_int8, 10);
    assert_eq!(t.store_float32, 11);
    assert_eq!(t.store_ptr, 12);
    assert_eq!(t.store_vector, 13);
    assert_eq!(t.deglobalify, 14);
    assert_eq!(t.check_if_global, 15);
    for op in ORDER {
        assert_eq!(Some(t.get(op)), m.find_function(op.symbol()));
    }
}

#[test]
fn empty_module_misses_globalify_first() {
    let m = Module::new();
    assert_eq!(resolve(&m), Err(PassError::MissingFunction(RuntimeOp::Globalify)));
}

#[test]
fn each_missing_function_is_reported() {
    for op in ORDER {
        let mut m = Module::new();
        declare_all_but(&mut m, &[op]);
        assert_eq!(resolve(&m), Err(PassError::MissingFunction(op)));
    }
}

#[test]
fn first_missing_function_in_lookup_order_is_reported() {
    let mut m = Module::new();
    declare_all_but(&mut m, &[RuntimeOp::StorePtr, RuntimeOp::LoadInt32, RuntimeOp::CheckIfGlobal]);
    assert_eq!(resolve(&m), Err(PassError::MissingFunction(RuntimeOp::LoadInt32)));
    let mut m = Module::new();
    declare_all_but(&mut m, &[RuntimeOp::Deglobalify, RuntimeOp::StoreVector]);
    assert_eq!(resolve(&m), Err(PassError::MissingFunction(RuntimeOp::StoreVector)));
}

#[test]
fn coarse_names_do_not_stand_in() {
    let mut m = Module::new();
    declare_all_but(&mut m, &[RuntimeOp::LoadInt64]);
    m.add_function("__pando__replace_load64", Ty::Int(64));
    assert_eq!(resolve(&m), Err(PassError::MissingFunction(RuntimeOp::LoadInt64)));
}

#[test]
fn lookup_takes_the_first_function_of_a_name() {
    let mut m = Module::new();
    declare_all_but(&mut m, &[]);
    let again = m.add_function("globalify", Ty::Pointer);
    assert_eq!(again, 15);
    assert_eq!(resolve(&m).unwrap().globalify, 0);
    assert_eq!(m.find_function("globalify"), Some(0));
    assert_eq!(m.find_function("nothing"), None);
}
