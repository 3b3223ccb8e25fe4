use load_store_pass::classify::{classify, classify_load, classify_store, Unsupported};
use load_store_pass::names::{is_assert_fail, is_excluded, same_text, RuntimeOp};
use load_store_pass::types::{Category, Lane, Opcode, Ty, VecTy};

fn quad() -> Ty {
    Ty::Vector(VecTy { lane: Lane::Float(32), lane_bytes: 4, lanes: 4 })
}

#[test]
fn load_of_pointer_takes_pointer_function() {
    assert_eq!(classify_load(Ty::Pointer), Ok(RuntimeOp::LoadPtr));
}

#[test]
fn load_of_integer_goes_by_width() {
    assert_eq!(classify_load(Ty::Int(8)), Ok(RuntimeOp::LoadInt8));
    assert_eq!(classify_load(Ty::Int(32)), Ok(RuntimeOp::LoadInt32));
    assert_eq!(classify_load(Ty::Int(64)), Ok(RuntimeOp::LoadInt64));
}

#[test]
fn load_of_other_width_is_refused_not_widened() {
    assert_eq!(classify_load(Ty::Int(16)), Err(Unsupported::Width(16)));
    assert_eq!(classify_load(Ty::Int(1)), Err(Unsupported::Width(1)));
    assert_eq!(classify_load(Ty::Int(128)), Err(Unsupported::Width(128)));
    assert_eq!(classify_load(Ty::Int(0)), Err(Unsupported::Width(0)));
}

#[test]
fn load_of_any_float_takes_the_32_bit_function() {
    assert_eq!(classify_load(Ty::Float(32)), Ok(RuntimeOp::LoadFloat32));
    assert_eq!(classify_load(Ty::Float(64)), Ok(RuntimeOp::LoadFloat32));
}

#[test]
fn load_of_vector_takes_vector_function() {
    assert_eq!(classify_load(quad()), Ok(RuntimeOp::LoadVector));
}

#[test]
fn load_of_aggregate_or_nothing_is_refused() {
    assert_eq!(classify_load(Ty::Aggregate), Err(Unsupported::Category));
    assert_eq!(classify_load(Ty::Void), Err(Unsupported::Category));
}

#[test]
fn store_goes_by_the_stored_value() {
    assert_eq!(classify_store(Ty::Pointer), Ok(RuntimeOp::StorePtr));
    assert_eq!(classify_store(Ty::Int(8)), Ok(RuntimeOp::StoreInt8));
    assert_eq!(classify_store(Ty::Int(32)), Ok(RuntimeOp::StoreInt32));
    assert_eq!(classify_store(Ty::Int(64)), Ok(RuntimeOp::StoreInt64));
    assert_eq!(classify_store(Ty::Float(32)), Ok(RuntimeOp::StoreFloat32));
    assert_eq!(classify_store(Ty::Float(16)), Ok(RuntimeOp::StoreFloat32));
    assert_eq!(classify_store(quad()), Ok(RuntimeOp::StoreVector));
}

#[test]
fn store_of_unsupported_value_is_refused() {
    assert_eq!(classify_store(Ty::Int(24)), Err(Unsupported::Width(24)));
    assert_eq!(classify_store(Ty::Aggregate), Err(Unsupported::Category));
    assert_eq!(classify_store(Ty::Void), Err(Unsupported::Category));
}

#[test]
fn alloca_always_maps_to_globalify() {
    assert_eq!(classify(Opcode::Alloca, Ty::Pointer), Ok(Some(RuntimeOp::Globalify)));
    assert_eq!(classify(Opcode::Alloca, Ty::Aggregate), Ok(Some(RuntimeOp::Globalify)));
    assert_eq!(classify(Opcode::Alloca, Ty::Int(7)), Ok(Some(RuntimeOp::Globalify)));
}

#[test]
fn classify_dispatches_on_the_opcode() {
    assert_eq!(classify(Opcode::Load, Ty::Int(64)), Ok(Some(RuntimeOp::LoadInt64)));
    assert_eq!(classify(Opcode::Store, Ty::Int(64)), Ok(Some(RuntimeOp::StoreInt64)));
    assert_eq!(classify(Opcode::Load, Ty::Int(12)), Err(Unsupported::Width(12)));
    assert_eq!(classify(Opcode::Store, Ty::Aggregate), Err(Unsupported::Category));
    assert_eq!(classify(Opcode::Call, Ty::Int(12)), Ok(None));
    assert_eq!(classify(Opcode::BitCast, Ty::Pointer), Ok(None));
    assert_eq!(classify(Opcode::Other, Ty::Aggregate), Ok(None));
}

#[test]
fn categories_drop_width_and_shape() {
    assert_eq!(Ty::Void.get_category(), Category::Void);
    assert_eq!(Ty::Pointer.get_category(), Category::Pointer);
    assert_eq!(Ty::Int(8).get_category(), Category::Int);
    assert_eq!(Ty::Int(64).get_category(), Category::Int);
    assert_eq!(Ty::Float(32).get_category(), Category::Float);
    assert_eq!(quad().get_category(), Category::Vector);
    assert_eq!(Ty::Aggregate.get_category(), Category::Aggregate);
}

#[test]
fn runtime_symbols_are_the_fixed_names() {
    assert_eq!(RuntimeOp::Globalify.symbol(), "globalify");
    assert_eq!(RuntimeOp::Deglobalify.symbol(), "deglobalify");
    assert_eq!(RuntimeOp::CheckIfGlobal.symbol(), "check_if_global");
    assert_eq!(RuntimeOp::LoadInt8.symbol(), "__pando__replace_load_int8");
    assert_eq!(RuntimeOp::LoadInt32.symbol(), "__pando__replace_load_int32");
    assert_eq!(RuntimeOp::LoadInt64.symbol(), "__pando__replace_load_int64");
    assert_eq!(RuntimeOp::LoadFloat32.symbol(), "__pando__replace_load_float32");
    assert_eq!(RuntimeOp::LoadPtr.symbol(), "__pando__replace_load_ptr");
    assert_eq!(RuntimeOp::LoadVector.symbol(), "__pando__replace_load_vector");
    assert_eq!(RuntimeOp::StoreInt8.symbol(), "__pando__replace_store_int8");
    assert_eq!(RuntimeOp::StoreInt32.symbol(), "__pando__replace_store_int32");
    assert_eq!(RuntimeOp::StoreInt64.symbol(), "__pando__replace_store_int64");
    assert_eq!(RuntimeOp::StoreFloat32.symbol(), "__pando__replace_store_float32");
    assert_eq!(RuntimeOp::StorePtr.symbol(), "__pando__replace_store_ptr");
    assert_eq!(RuntimeOp::StoreVector.symbol(), "__pando__replace_store_vector");
}

#[test]
fn every_runtime_function_is_excluded() {
    let all = [
        RuntimeOp::Globalify,
        RuntimeOp::Deglobalify,
        RuntimeOp::CheckIfGlobal,
        RuntimeOp::LoadInt8,
        RuntimeOp::LoadInt32,
        RuntimeOp::LoadInt64,
        RuntimeOp::LoadFloat32,
        RuntimeOp::LoadPtr,
        RuntimeOp::LoadVector,
        RuntimeOp::StoreInt8,
        RuntimeOp::StoreInt32,
        RuntimeOp::StoreInt64,
        RuntimeOp::StoreFloat32,
        RuntimeOp::StorePtr,
        RuntimeOp::StoreVector,
    ];
    for op in all {
        assert!(is_excluded(op.symbol()), "{:?}", op);
    }
}

#[test]
fn other_functions_are_not_excluded() {
    assert!(!is_excluded("main"));
    assert!(!is_excluded(""));
    assert!(!is_excluded("globalify2"));
    assert!(!is_excluded("Globalify"));
    assert!(!is_excluded("__pando__replace_load_int16"));
    assert!(!is_excluded("__pando__replace_load64"));
    assert!(!is_excluded("__assert_fail"));
}

#[test]
fn assertion_failure_entry_point_is_recognised_by_name() {
    assert!(is_assert_fail("__assert_fail"));
    assert!(!is_assert_fail("assert_fail"));
    assert!(!is_assert_fail("__assert_fail "));
    assert!(!is_assert_fail(""));
}

#[test]
fn same_text_compares_whole_strings() {
    assert!(same_text("", ""));
    assert!(same_text("abc", "abc"));
    assert!(!same_text("abc", "abd"));
    assert!(!same_text("abc", "ab"));
    assert!(!same_text("ab", "abc"));
}
