use jinjer::value::Heap;
use jinjer::{Inst, Object, Value, VM};

fn vm_with_constants_nop_and_add() -> VM {
    let mut vm = VM::default();
    vm.emit(Inst::Nop);
    vm.emit(Inst::Nop);
    vm.emit_constant_load(Value::from_int(2));
    vm.emit(Inst::Nop);
    vm.emit(Inst::Nop);
    vm.emit(Inst::Nop);
    vm.emit_constant_load(Value::from_int(3));
    vm.emit_constant_load(Value::from_int(1));
    vm.emit(Inst::Add);
    vm
}

#[test]
fn getting_constants_nop_and_add() {
    let vm = vm_with_constants_nop_and_add();
    let result = vm.run().unwrap();
    assert_eq!(result.len(), 2);
    assert_eq!(result[0].as_int(), Some(2));
    assert_eq!(result[1].as_int(), Some(4));
}

#[test]
fn vm_getting_constants_nop_and_add() {
    let vm = vm_with_constants_nop_and_add();
    let result = vm.run().unwrap();
    assert_eq!(result.len(), 2);
    assert_eq!(result[0].as_int(), Some(2));
    assert_eq!(result[1].as_int(), Some(4));
}

#[test]
fn add_on_empty_stack_fails_without_panic() {
    let mut vm = VM::default();
    vm.emit(Inst::Add);
    let err = vm.step().unwrap_err();
    assert_eq!(err, "not enough arguments");
    // the failing step leaves the machine exactly as it was
    assert_eq!(vm.lp, 0);
    assert_eq!(vm.stack.len(), 0);
    assert_eq!(vm.variables.len(), 0);
    assert_eq!(vm.run().unwrap_err(), "not enough arguments".to_string());
}

#[test]
fn one_operand_is_not_enough_for_sub() {
    let mut vm = VM::default();
    vm.emit_constant_load(Value::from_int(5));
    vm.emit(Inst::Sub);
    assert_eq!(vm.run().unwrap_err(), "not enough arguments".to_string());
}

#[test]
fn bad_constant_index_fails() {
    let mut vm = VM::default();
    vm.emit(Inst::GetConst(0));
    assert_eq!(vm.run().unwrap_err(), "bad constant get".to_string());
}

#[test]
fn end_var_on_empty_variable_stack_fails() {
    let mut vm = VM::default();
    vm.emit(Inst::EndVar);
    assert_eq!(vm.run().unwrap_err(), "variable stack exhausted".to_string());
}

#[test]
fn get_var_beyond_variable_stack_fails() {
    let mut vm = VM::default();
    vm.emit(Inst::GetVar(0));
    assert_eq!(vm.run().unwrap_err(), "variable stack exhausted".to_string());
}

#[test]
fn var_on_empty_stack_fails() {
    let mut vm = VM::default();
    vm.emit(Inst::Var);
    assert_eq!(vm.run().unwrap_err(), "stack exhausted".to_string());
}

#[test]
fn division_by_zero_fails() {
    let mut vm = VM::default();
    vm.emit_constant_load(Value::from_int(1));
    vm.emit_constant_load(Value::from_int(0));
    vm.emit(Inst::Div);
    assert_eq!(vm.run().unwrap_err(), "division by zero".to_string());
}

#[test]
fn division_truncates_and_min_by_minus_one_wraps() {
    let mut vm = VM::default();
    vm.emit_constant_load(Value::from_int(-7));
    vm.emit_constant_load(Value::from_int(2));
    vm.emit(Inst::Div);
    vm.emit_constant_load(Value::from_int(i32::MIN));
    vm.emit_constant_load(Value::from_int(-1));
    vm.emit(Inst::Div);
    let result = vm.run().unwrap();
    assert_eq!(result[0].as_int(), Some(-3));
    assert_eq!(result[1].as_int(), Some(i32::MIN));
}

#[test]
fn mul_wraps_on_overflow() {
    let mut vm = VM::default();
    vm.emit_constant_load(Value::from_int(i32::MAX));
    vm.emit_constant_load(Value::from_int(2));
    vm.emit(Inst::Mul);
    let result = vm.run().unwrap();
    assert_eq!(result[0].as_int(), Some(-2));
}

#[test]
fn mod_follows_sign_of_dividend() {
    let mut vm = VM::default();
    vm.emit_constant_load(Value::from_int(-7));
    vm.emit_constant_load(Value::from_int(3));
    vm.emit(Inst::Mod);
    let result = vm.run().unwrap();
    assert_eq!(result[0].as_int(), Some(-1));
}

#[test]
fn current_inst_and_add_constant() {
    let mut vm = VM::default();
    let index = vm.add_constant(Value::from_int(9));
    assert_eq!(index, 0);
    let second = vm.add_constant(Value::from_int(10));
    assert_eq!(second, 1);
    vm.emit(Inst::GetConst(index));
    assert!(matches!(vm.current_inst(), Inst::GetConst(0)));
}

#[test]
fn get_str_builds_a_heap_object() {
    let mut vm = VM::default();
    vm.emit_string_load(b"Hello world!".to_vec());
    while vm.lp < vm.instructions.len() {
        vm.step().unwrap();
    }
    assert_eq!(vm.stack.len(), 1);
    let handle = match vm.stack[0] {
        Value::Obj(o) => o,
        _ => panic!("expected an object handle"),
    };
    assert!(vm.heap.is_live(handle));
    assert_eq!(vm.heap.ref_count(handle), 1);
    assert_eq!(vm.heap.object_bytes(handle).as_slice(), b"Hello world!");
}

#[test]
fn heap_clone_then_drop_both_frees_exactly_once() {
    let mut heap = Heap::new();
    let original = Object::new(&mut heap, vec![1u8, 2, 3]);
    assert_eq!(heap.ref_count(original), 1);
    let duplicate = original.clone_ref(&mut heap);
    assert_eq!(duplicate, original);
    assert_eq!(heap.ref_count(original), 2);
    original.drop(&mut heap);
    assert!(heap.is_live(duplicate));
    assert_eq!(heap.ref_count(duplicate), 1);
    assert_eq!(heap.object_bytes(duplicate).as_slice(), &[1u8, 2, 3]);
    duplicate.drop(&mut heap);
    assert!(!heap.is_live(duplicate));
}
