use starlark::as_type::{StarlarkValueAsType, Ty, TypeError};
use starlark::frozen::FrozenHeap;
use starlark::heap::{ComplexValue, MutableHeap};
use starlark::value::{Immediate, Value};

const COMPILER_ARGS: u64 = 11;

fn compiler_args_type() -> StarlarkValueAsType {
    StarlarkValueAsType::new(COMPILER_ARGS, "compiler_args".to_string())
}

#[test]
fn test_pass() {
    let t = compiler_args_type();
    let mut heap = MutableHeap::new();
    let frozen = FrozenHeap::new();
    let s = heap.alloc_str("hello".to_string());
    let v = heap.alloc_complex(ComplexValue { family: COMPILER_ARGS, fields: vec![s], freezable: true });
    assert!(t.check_type(t.eval_type()).is_ok());
    assert!(t.check_value(v, &heap, &frozen).is_ok());
}

#[test]
fn test_fail_compile_time() {
    let t = compiler_args_type();
    let e = t.check_type(Ty::List).unwrap_err();
    assert!(matches!(e, TypeError::Expected { .. }));
    let m = e.message();
    assert!(m.contains("Expected type `compiler_args` but got"), "{}", m);
    assert_eq!(m, "Expected type `compiler_args` but got `list`");
}

#[test]
fn test_fail_runtime() {
    let t = compiler_args_type();
    let heap = MutableHeap::new();
    let frozen = FrozenHeap::new();
    let e = t.check_value(Value::Imm(Immediate::Int(1)), &heap, &frozen).unwrap_err();
    let m = e.message();
    assert!(m.contains("Value `1` of type `int` does not match the type annotation"), "{}", m);
}

#[test]
fn runtime_message_shows_negative_and_other_values() {
    let t = compiler_args_type();
    let mut heap = MutableHeap::new();
    let frozen = FrozenHeap::new();
    let e = t.check_value(Value::Imm(Immediate::Int(-305)), &heap, &frozen).unwrap_err();
    assert_eq!(e.message(), "Value `-305` of type `int` does not match the type annotation `compiler_args`");
    let e = t.check_value(Value::Imm(Immediate::Bool(true)), &heap, &frozen).unwrap_err();
    assert_eq!(e.message(), "Value `True` of type `bool` does not match the type annotation `compiler_args`");
    let s = heap.alloc_str("x".to_string());
    let e = t.check_value(s, &heap, &frozen).unwrap_err();
    assert_eq!(e.message(), "Value `<string>` of type `string` does not match the type annotation `compiler_args`");
}

#[test]
fn docs_and_names() {
    let t = compiler_args_type();
    let u = StarlarkValueAsType::new_no_docs(COMPILER_ARGS, "compiler_args".to_string());
    assert_eq!(t.documentation(), Some(Ty::Complex(COMPILER_ARGS)));
    assert_eq!(u.documentation(), None);
    assert_eq!(u.eval_type(), Ty::Complex(COMPILER_ARGS));
    assert_eq!(t.shown_name(), "compiler_args");
}
