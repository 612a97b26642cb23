use starlark::frozen::FrozenHeap;
use starlark::heap::{ComplexValue, MutObject, MutableHeap};
use starlark::trace::trace;
use starlark::value::{Immediate, Value};

fn text(heap: &MutableHeap, v: Value) -> String {
    match v {
        Value::Mutable(a) => match heap.get(a) {
            MutObject::Str(s) => s.clone(),
            MutObject::Complex(_) => panic!("expected a string"),
        },
        _ => panic!("expected a mutable value"),
    }
}

fn fields(heap: &MutableHeap, v: Value) -> Vec<Value> {
    match v {
        Value::Mutable(a) => match heap.get(a) {
            MutObject::Complex(c) => c.fields.clone(),
            MutObject::Str(_) => panic!("expected a complex value"),
        },
        _ => panic!("expected a mutable value"),
    }
}

#[test]
fn trace_drops_unreachable_and_keeps_contents() {
    let mut heap = MutableHeap::new();
    let frozen = FrozenHeap::new();
    heap.alloc_str("dead".to_string());
    let s = heap.alloc_str("live".to_string());
    heap.alloc_str("dead too".to_string());
    let x = heap.alloc_complex(ComplexValue { family: 3, fields: vec![s, Value::Imm(Immediate::Int(-1))], freezable: true });
    let mut roots = vec![x, Value::Imm(Immediate::Int(5))];
    let forward = trace(&mut heap, &mut roots, &frozen);
    assert_eq!(heap.len(), 2);
    assert_eq!(forward, vec![None, Some(1), None, Some(0)]);
    assert_eq!(roots, vec![Value::Mutable(0), Value::Imm(Immediate::Int(5))]);
    let f = fields(&heap, roots[0]);
    assert_eq!(text(&heap, f[0]), "live");
    assert_eq!(f[1], Value::Imm(Immediate::Int(-1)));
}

#[test]
fn trace_keeps_cycles() {
    let mut heap = MutableHeap::new();
    let frozen = FrozenHeap::new();
    heap.alloc_str("dead".to_string());
    let a = heap.alloc_complex(ComplexValue { family: 3, fields: vec![Value::Imm(Immediate::NoneValue)], freezable: true });
    let b = heap.alloc_complex(ComplexValue { family: 4, fields: vec![a], freezable: true });
    heap.set_field(1, 0, b);
    let mut roots = vec![b];
    trace(&mut heap, &mut roots, &frozen);
    assert_eq!(heap.len(), 2);
    let nb = roots[0];
    let na = fields(&heap, nb)[0];
    assert_eq!(fields(&heap, na)[0], nb);
}

#[test]
fn trace_with_no_roots_empties_heap() {
    let mut heap = MutableHeap::new();
    let frozen = FrozenHeap::new();
    heap.alloc_str("a".to_string());
    let mut roots: Vec<Value> = vec![];
    let forward = trace(&mut heap, &mut roots, &frozen);
    assert_eq!(heap.len(), 0);
    assert_eq!(forward, vec![None]);
}
