use starlark::complex::{DynType, Unpacked, ValueTypedComplex};
use starlark::frozen::{FrozenComplex, FrozenHeap, FrozenObject};
use starlark::heap::{ComplexValue, MutObject, MutableHeap};
use starlark::module::Module;
use starlark::value::{FrozenValue, Immediate, Value};

const TEST_VALUE_OF_COMPLEX: u64 = 7;
const OTHER_FAMILY: u64 = 8;

fn text_of(v: Value, heap: &MutableHeap, frozen: &FrozenHeap) -> Option<String> {
    match v {
        Value::Mutable(a) => match heap.get(a) {
            MutObject::Str(s) => Some(s.clone()),
            _ => None,
        },
        Value::Frozen(a) => match frozen.get(a) {
            FrozenObject::Str(s) => Some(s.clone()),
            _ => None,
        },
        Value::Imm(_) => None,
    }
}

fn unpack_text(v: Value, heap: &MutableHeap, frozen: &FrozenHeap) -> Result<String, &'static str> {
    let t = ValueTypedComplex::new(v, TEST_VALUE_OF_COMPLEX, heap, frozen).ok_or("wrong type")?;
    match t.unpack(heap, frozen) {
        Unpacked::Mutable(c) => text_of(c.fields[0], heap, frozen).ok_or("not a string"),
        Unpacked::Frozen(d) => text_of(d.fields[0].to_value(), heap, frozen).ok_or("not a string"),
    }
}

fn setup() -> (MutableHeap, FrozenHeap, Module) {
    let mut heap = MutableHeap::new();
    let mut frozen = FrozenHeap::new();
    let mut module = Module::new();
    let s = heap.alloc_str("test1".to_string());
    let x = heap.alloc_complex(ComplexValue { family: TEST_VALUE_OF_COMPLEX, fields: vec![s], freezable: true });
    let s2 = frozen.alloc_str("test2".to_string());
    let y = frozen.alloc_simple(FrozenObject::Complex(FrozenComplex {
        family: TEST_VALUE_OF_COMPLEX,
        fields: vec![s2],
    }));
    module.set("x".to_string(), x);
    module.set("y".to_string(), y.to_value());
    (heap, frozen, module)
}

#[test]
fn test_unpack() {
    let (heap, frozen, module) = setup();
    let x = module.get(&"x".to_string()).unwrap();
    let y = module.get(&"y".to_string()).unwrap();
    assert_eq!(unpack_text(x, &heap, &frozen), Ok("test1".to_string()));
    assert_eq!(unpack_text(y, &heap, &frozen), Ok("test2".to_string()));
}

#[test]
fn bindings_of_both_heaps_share_one_access_path() {
    let (heap, frozen, module) = setup();
    let x = module.get(&"x".to_string()).unwrap();
    let y = module.get(&"y".to_string()).unwrap();
    assert!(matches!(x, Value::Mutable(_)));
    assert!(matches!(y, Value::Frozen(_)));
    let tx = ValueTypedComplex::new(x, TEST_VALUE_OF_COMPLEX, &heap, &frozen).unwrap();
    let ty = ValueTypedComplex::new(y, TEST_VALUE_OF_COMPLEX, &heap, &frozen).unwrap();
    assert!(matches!(tx.unpack(&heap, &frozen), Unpacked::Mutable(_)));
    assert!(matches!(ty.unpack(&heap, &frozen), Unpacked::Frozen(_)));
    assert_eq!(tx.to_value(), x);
    assert_eq!(ty.to_value(), y);
    assert_eq!(module.get(&"z".to_string()), None);
}

#[test]
fn downcast_accepts_either_form_and_nothing_else() {
    let (heap, frozen, module) = setup();
    let x = module.get(&"x".to_string()).unwrap();
    let y = module.get(&"y".to_string()).unwrap();
    assert!(ValueTypedComplex::new(x, OTHER_FAMILY, &heap, &frozen).is_none());
    assert!(ValueTypedComplex::new(y, OTHER_FAMILY, &heap, &frozen).is_none());
    let s = Value::Mutable(0);
    assert_eq!(starlark::complex::dyn_type(s, &heap, &frozen), DynType::Str);
    assert!(ValueTypedComplex::new(s, TEST_VALUE_OF_COMPLEX, &heap, &frozen).is_none());
    let i = Value::new_imm(Immediate::Int(3));
    assert_eq!(starlark::complex::dyn_type(i, &heap, &frozen), DynType::Int);
    assert!(ValueTypedComplex::new(i, TEST_VALUE_OF_COMPLEX, &heap, &frozen).is_none());
    assert_eq!(starlark::complex::dyn_type(x, &heap, &frozen), DynType::Complex(TEST_VALUE_OF_COMPLEX));
    assert_eq!(starlark::complex::dyn_type(y, &heap, &frozen), DynType::FrozenComplex(TEST_VALUE_OF_COMPLEX));
}

#[test]
fn typed_freeze_gives_frozen_form_of_same_family() {
    let (heap, mut frozen, module) = setup();
    let x = module.get(&"x".to_string()).unwrap();
    let tx = ValueTypedComplex::new(x, TEST_VALUE_OF_COMPLEX, &heap, &frozen).unwrap();
    let mut freezer = starlark::freeze::Freezer::new(&heap);
    let before = frozen.len();
    let t = tx.freeze(&mut freezer, &heap, &mut frozen).unwrap();
    assert_eq!(t.get_family(), TEST_VALUE_OF_COMPLEX);
    assert!(matches!(t.to_value(), Value::Frozen(_)));
    assert!(matches!(t.unpack(&heap, &frozen), Unpacked::Frozen(_)));
    assert_eq!(frozen.len(), before + 2);
    assert_eq!(unpack_text(t.to_value(), &heap, &frozen), Ok("test1".to_string()));
}

#[test]
fn typed_trace_follows_relocation() {
    let mut heap = MutableHeap::new();
    let frozen = FrozenHeap::new();
    heap.alloc_str("garbage".to_string());
    let s = heap.alloc_str("kept".to_string());
    let x = heap.alloc_complex(ComplexValue { family: TEST_VALUE_OF_COMPLEX, fields: vec![s], freezable: true });
    let mut t = ValueTypedComplex::new(x, TEST_VALUE_OF_COMPLEX, &heap, &frozen).unwrap();
    let mut roots = vec![x];
    let forward = starlark::trace::trace(&mut heap, &mut roots, &frozen);
    t.trace(&forward);
    assert_eq!(t.to_value(), roots[0]);
    assert_eq!(t.to_value(), Value::Mutable(0));
    assert_eq!(unpack_text(t.to_value(), &heap, &frozen), Ok("kept".to_string()));
}

#[test]
fn frozen_value_converts_back() {
    assert_eq!(FrozenValue::Frozen(4).to_value(), Value::Frozen(4));
    assert_eq!(FrozenValue::Imm(Immediate::Bool(true)).to_value(), Value::Imm(Immediate::Bool(true)));
    assert_eq!(Value::Frozen(4).unpack_frozen(), Some(FrozenValue::Frozen(4)));
    assert_eq!(Value::Mutable(4).unpack_frozen(), None);
}

#[test]
fn typed_freeze_of_frozen_handle_is_identity() {
    let (heap, mut frozen, module) = setup();
    let y = module.get(&"y".to_string()).unwrap();
    let ty = ValueTypedComplex::new(y, TEST_VALUE_OF_COMPLEX, &heap, &frozen).unwrap();
    let mut freezer = starlark::freeze::Freezer::new(&heap);
    let before = frozen.len();
    let t = ty.freeze(&mut freezer, &heap, &mut frozen).unwrap();
    assert_eq!(t.to_value(), y);
    assert_eq!(frozen.len(), before);
    assert_eq!(freezer.frozen_address(0), None);
}

#[test]
fn typed_freeze_twice_shares_one_copy() {
    let (heap, mut frozen, module) = setup();
    let x = module.get(&"x".to_string()).unwrap();
    let a = ValueTypedComplex::new(x, TEST_VALUE_OF_COMPLEX, &heap, &frozen).unwrap();
    let b = ValueTypedComplex::new(x, TEST_VALUE_OF_COMPLEX, &heap, &frozen).unwrap();
    let mut freezer = starlark::freeze::Freezer::new(&heap);
    let fa = a.freeze(&mut freezer, &heap, &mut frozen).unwrap();
    let len = frozen.len();
    let fb = b.freeze(&mut freezer, &heap, &mut frozen).unwrap();
    assert_eq!(fa.to_value(), fb.to_value());
    assert_eq!(frozen.len(), len);
    assert_eq!(fa.ty(), starlark::as_type::Ty::Complex(TEST_VALUE_OF_COMPLEX));
}
