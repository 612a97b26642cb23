use starlark::freeze::{FreezeError, Freezer};
use starlark::frozen::{FrozenHeap, FrozenObject};
use starlark::heap::{ComplexValue, MutObject, MutableHeap};
use starlark::value::{FrozenValue, Immediate, Value};

const PAIR: u64 = 1;
const HANDLE: u64 = 2;

fn complex(fields: Vec<Value>) -> ComplexValue {
    ComplexValue { family: PAIR, fields, freezable: true }
}

fn frozen_fields(frozen: &FrozenHeap, fv: FrozenValue) -> (u64, Vec<FrozenValue>) {
    match fv {
        FrozenValue::Frozen(a) => match frozen.get(a) {
            FrozenObject::Complex(d) => (d.family, d.fields.clone()),
            FrozenObject::Str(_) => panic!("expected a complex value"),
        },
        FrozenValue::Imm(_) => panic!("expected a heap value"),
    }
}

fn frozen_text(frozen: &FrozenHeap, fv: FrozenValue) -> String {
    match fv {
        FrozenValue::Frozen(a) => match frozen.get(a) {
            FrozenObject::Str(s) => s.clone(),
            FrozenObject::Complex(_) => panic!("expected a string"),
        },
        FrozenValue::Imm(_) => panic!("expected a heap value"),
    }
}

#[test]
fn freeze_keeps_contents() {
    let mut heap = MutableHeap::new();
    let mut frozen = FrozenHeap::new();
    let s = heap.alloc_str("hello".to_string());
    let x = heap.alloc_complex(complex(vec![s, Value::Imm(Immediate::Int(42))]));
    let mut freezer = Freezer::new(&heap);
    let fx = freezer.freeze(x, &heap, &mut frozen).unwrap();
    let (family, fields) = frozen_fields(&frozen, fx);
    assert_eq!(family, PAIR);
    assert_eq!(fields.len(), 2);
    assert_eq!(frozen_text(&frozen, fields[0]), "hello");
    assert_eq!(fields[1], FrozenValue::Imm(Immediate::Int(42)));
    assert_eq!(frozen.len(), 2);
}

#[test]
fn freeze_of_immediate_and_frozen_is_identity() {
    let heap = MutableHeap::new();
    let mut frozen = FrozenHeap::new();
    let y = frozen.alloc_str("already".to_string());
    let mut freezer = Freezer::new(&heap);
    let imm = Value::Imm(Immediate::Bool(false));
    assert_eq!(freezer.freeze(imm, &heap, &mut frozen), Ok(FrozenValue::Imm(Immediate::Bool(false))));
    assert_eq!(freezer.freeze(y.to_value(), &heap, &mut frozen), Ok(y));
    assert_eq!(frozen.len(), 1);
}

#[test]
fn freeze_twice_shares_one_copy() {
    let mut heap = MutableHeap::new();
    let mut frozen = FrozenHeap::new();
    let s = heap.alloc_str("shared".to_string());
    let a = heap.alloc_complex(complex(vec![s]));
    let b = heap.alloc_complex(complex(vec![s]));
    let mut freezer = Freezer::new(&heap);
    let fa = freezer.freeze(a, &heap, &mut frozen).unwrap();
    let fb = freezer.freeze(b, &heap, &mut frozen).unwrap();
    let fs1 = frozen_fields(&frozen, fa).1[0];
    let fs2 = frozen_fields(&frozen, fb).1[0];
    assert_eq!(fs1, fs2);
    let again = freezer.freeze(s, &heap, &mut frozen).unwrap();
    assert_eq!(again, fs1);
    assert_eq!(frozen.len(), 3);
    assert_eq!(freezer.frozen_address(0), Some(1));
}

#[test]
fn freeze_of_self_cycle_terminates_with_cycle() {
    let mut heap = MutableHeap::new();
    let mut frozen = FrozenHeap::new();
    let x = heap.alloc_complex(complex(vec![Value::Imm(Immediate::NoneValue)]));
    heap.set_field(0, 0, x);
    let mut freezer = Freezer::new(&heap);
    let fx = freezer.freeze(x, &heap, &mut frozen).unwrap();
    let (_, fields) = frozen_fields(&frozen, fx);
    assert_eq!(fields[0], fx);
    assert_eq!(frozen.len(), 1);
}

#[test]
fn freeze_of_two_node_cycle_is_consistent() {
    let mut heap = MutableHeap::new();
    let mut frozen = FrozenHeap::new();
    let a = heap.alloc_complex(complex(vec![Value::Imm(Immediate::NoneValue)]));
    let b = heap.alloc_complex(complex(vec![a]));
    heap.set_field(0, 0, b);
    let mut freezer = Freezer::new(&heap);
    let fa = freezer.freeze(a, &heap, &mut frozen).unwrap();
    let fb = frozen_fields(&frozen, fa).1[0];
    assert_eq!(frozen_fields(&frozen, fb).1[0], fa);
    assert_eq!(freezer.freeze(b, &heap, &mut frozen), Ok(fb));
    assert_eq!(frozen.len(), 2);
}

#[test]
fn freeze_of_non_freezable_fails_without_residue() {
    let mut heap = MutableHeap::new();
    let mut frozen = FrozenHeap::new();
    frozen.alloc_str("before".to_string());
    let s = heap.alloc_str("fine".to_string());
    let r = heap.alloc_complex(ComplexValue { family: HANDLE, fields: vec![], freezable: false });
    let x = heap.alloc_complex(complex(vec![s, r]));
    let mut freezer = Freezer::new(&heap);
    assert_eq!(freezer.freeze(x, &heap, &mut frozen), Err(FreezeError::NotFreezable(1)));
    assert_eq!(frozen.len(), 1);
    assert_eq!(freezer.frozen_address(0), None);
    assert_eq!(freezer.frozen_address(2), None);
    let fs = freezer.freeze(s, &heap, &mut frozen).unwrap();
    assert_eq!(frozen_text(&frozen, fs), "fine");
}

#[test]
fn frozen_references_are_kept_by_freeze() {
    let mut heap = MutableHeap::new();
    let mut frozen = FrozenHeap::new();
    let old = frozen.alloc_str("imported".to_string());
    let x = heap.alloc_complex(complex(vec![old.to_value()]));
    let mut freezer = Freezer::new(&heap);
    let fx = freezer.freeze(x, &heap, &mut frozen).unwrap();
    assert_eq!(frozen_fields(&frozen, fx).1[0], old);
    assert!(matches!(heap.get(0), MutObject::Complex(_)));
}

#[test]
fn freeze_all_freezes_module_globals_together() {
    let mut heap = MutableHeap::new();
    let mut frozen = FrozenHeap::new();
    let s = heap.alloc_str("g".to_string());
    let x = heap.alloc_complex(complex(vec![s]));
    let roots = vec![x, s, Value::Imm(Immediate::Int(7))];
    let mut freezer = Freezer::new(&heap);
    let out = freezer.freeze_all(&roots, &heap, &mut frozen).unwrap();
    assert_eq!(out.len(), 3);
    assert_eq!(frozen_fields(&frozen, out[0]).1[0], out[1]);
    assert_eq!(frozen_text(&frozen, out[1]), "g");
    assert_eq!(out[2], FrozenValue::Imm(Immediate::Int(7)));
    assert_eq!(frozen.len(), 2);
}

#[test]
fn freeze_all_fails_as_a_whole() {
    let mut heap = MutableHeap::new();
    let mut frozen = FrozenHeap::new();
    let s = heap.alloc_str("ok".to_string());
    let r = heap.alloc_complex(ComplexValue { family: HANDLE, fields: vec![], freezable: false });
    let roots = vec![s, r];
    let mut freezer = Freezer::new(&heap);
    assert_eq!(freezer.freeze_all(&roots, &heap, &mut frozen), Err(FreezeError::NotFreezable(1)));
    assert_eq!(frozen.len(), 0);
    assert_eq!(freezer.frozen_address(0), None);
}
