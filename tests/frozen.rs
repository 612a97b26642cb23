use starlark::frozen::{FrozenComplex, FrozenHeap, FrozenObject};
use starlark::value::FrozenValue;

#[test]
fn merge_appends_and_rebases() {
    let mut a = FrozenHeap::new();
    let first = a.alloc_str("first".to_string());
    let mut b = FrozenHeap::new();
    let s = b.alloc_str("second".to_string());
    b.alloc_simple(FrozenObject::Complex(FrozenComplex { family: 9, fields: vec![s] }));
    let offset = a.merge(b);
    assert_eq!(offset, 1);
    assert_eq!(a.len(), 3);
    assert!(matches!(a.get(0), FrozenObject::Str(t) if t == "first"));
    assert!(matches!(a.get(1), FrozenObject::Str(t) if t == "second"));
    match a.get(2) {
        FrozenObject::Complex(d) => {
            assert_eq!(d.family, 9);
            assert_eq!(d.fields, vec![FrozenValue::Frozen(1)]);
        }
        FrozenObject::Str(_) => panic!("expected a complex value"),
    }
    assert_eq!(first, FrozenValue::Frozen(0));
}
