use vstd::prelude::*;

use crate::complex::backs_family;
use crate::freeze::{corresponds, freezes_to, memo_extends, Freezer};
use crate::frozen::{FrozenHeap, FrozenObject};
use crate::heap::{MutObject, MutableHeap};
use crate::trace::{relocated, relocates};
use crate::value::{FrozenValue, Value};

verus! {

/// A mutable-side handle `v` and a frozen handle `w` show the same value when
/// unfolded `depth` levels: equal immediates, the same frozen object, or a
/// mutable object and a frozen object with the same text, or with the same
/// family and fields that agree one level less deep.
pub open spec fn agrees_frozen(
    heap: Seq<MutObject>,
    frozen: Seq<FrozenObject>,
    v: Value,
    w: FrozenValue,
    depth: nat,
) -> bool
    decreases depth,
{
    match (v, w) {
        (Value::Imm(i), FrozenValue::Imm(j)) => i == j,
        (Value::Frozen(a), FrozenValue::Frozen(b)) => a == b,
        (Value::Mutable(a), FrozenValue::Frozen(b)) => depth == 0 || match (heap[a as int], frozen[b as int]) {
            (MutObject::Str(s), FrozenObject::Str(t)) => s@ == t@,
            (MutObject::Complex(c), FrozenObject::Complex(d)) => {
                &&& c.family == d.family
                &&& c.fields@.len() == d.fields@.len()
                &&& forall|i: int|
                    0 <= i < c.fields@.len() ==> agrees_frozen(
                        heap,
                        frozen,
                        #[trigger] c.fields@[i],
                        d.fields@[i],
                        (depth - 1) as nat,
                    )
            },
            _ => false,
        },
        _ => false,
    }
}

/// Two handles into two mutable heaps show the same value when unfolded
/// `depth` levels.
pub open spec fn agrees_moved(
    h1: Seq<MutObject>,
    h2: Seq<MutObject>,
    v: Value,
    w: Value,
    depth: nat,
) -> bool
    decreases depth,
{
    match (v, w) {
        (Value::Imm(i), Value::Imm(j)) => i == j,
        (Value::Frozen(a), Value::Frozen(b)) => a == b,
        (Value::Mutable(a), Value::Mutable(b)) => depth == 0 || match (h1[a as int], h2[b as int]) {
            (MutObject::Str(s), MutObject::Str(t)) => s@ == t@,
            (MutObject::Complex(c), MutObject::Complex(d)) => {
                &&& c.family == d.family
                &&& c.freezable == d.freezable
                &&& c.fields@.len() == d.fields@.len()
                &&& forall|i: int|
                    0 <= i < c.fields@.len() ==> agrees_moved(
                        h1,
                        h2,
                        #[trigger] c.fields@[i],
                        d.fields@[i],
                        (depth - 1) as nat,
                    )
            },
            _ => false,
        },
        _ => false,
    }
}

/// Round trip: a handle and what the freezer made of it show the same value,
/// however deep it is unfolded, cycles included.
pub proof fn law_freeze_round_trip(
    freezer: Freezer,
    heap: MutableHeap,
    frozen: FrozenHeap,
    v: Value,
    fv: FrozenValue,
    depth: nat,
)
    requires
        freezer.wf(&heap, &frozen),
        v.valid_in(heap@.len() as int, frozen@.len() as int),
        freezes_to(v, fv, freezer@),
    ensures
        agrees_frozen(heap@, frozen@, v, fv, depth),
    decreases depth,
{
    if let Value::Mutable(a) = v {
        if depth > 0 {
            let f = freezer@[a as int]->0;
            assert(corresponds(heap@[a as int], frozen@[f as int], freezer@));
            assert(heap@[a as int].refs_valid(heap@.len() as int, frozen@.len() as int));
            if let (MutObject::Complex(c), FrozenObject::Complex(d)) = (heap@[a as int], frozen@[f as int]) {
                assert forall|i: int| 0 <= i < c.fields@.len() implies agrees_frozen(
                    heap@,
                    frozen@,
                    #[trigger] c.fields@[i],
                    d.fields@[i],
                    (depth - 1) as nat,
                ) by {
                    assert(heap@[a as int].children()[i] == c.fields@[i]);
                    assert(freezes_to(c.fields@[i], d.fields@[i], freezer@));
                    law_freeze_round_trip(freezer, heap, frozen, c.fields@[i], d.fields@[i], (depth - 1) as nat);
                }
            }
        }
    }
}

/// Idempotence: a handle that is already frozen freezes to itself.
pub proof fn law_freeze_frozen_is_identity(memo: Seq<Option<usize>>, a: usize, fv: FrozenValue)
    requires
        freezes_to(Value::Frozen(a), fv, memo),
    ensures
        fv == FrozenValue::Frozen(a),
{
}

/// Sharing: two freezes of handles to the same mutable object, the second
/// with a freezer that extends the first, give the identical frozen handle.
pub proof fn law_freeze_shares(
    memo1: Seq<Option<usize>>,
    memo2: Seq<Option<usize>>,
    a: usize,
    fv1: FrozenValue,
    fv2: FrozenValue,
)
    requires
        a < memo1.len(),
        freezes_to(Value::Mutable(a), fv1, memo1),
        memo_extends(memo2, memo1),
        freezes_to(Value::Mutable(a), fv2, memo2),
    ensures
        fv1 == fv2,
{
    assert(memo1[a as int] is Some);
}

/// Edges are kept: if field `i` of a frozen mutable object points to the
/// mutable object at `b`, field `i` of its frozen counterpart points to the
/// frozen counterpart of `b`. A cycle through any number of objects thus
/// freezes to a cycle through their counterparts.
pub proof fn law_freeze_keeps_edges(freezer: Freezer, heap: MutableHeap, frozen: FrozenHeap, a: usize, i: int, b: usize)
    requires
        freezer.wf(&heap, &frozen),
        a < heap@.len(),
        freezer@[a as int] is Some,
        0 <= i < heap@[a as int].children().len(),
        heap@[a as int].children()[i] == Value::Mutable(b),
    ensures
        freezer@[b as int] is Some,
        frozen@[freezer@[a as int]->0 as int] matches FrozenObject::Complex(d) && i < d.fields@.len() && d.fields@[i]
            == FrozenValue::Frozen(freezer@[b as int]->0),
{
    let f = freezer@[a as int]->0;
    assert(corresponds(heap@[a as int], frozen@[f as int], freezer@));
    if let MutObject::Complex(c) = heap@[a as int] {
        assert(freezes_to(c.fields@[i], frozen@[f as int]->Complex_0.fields@[i], freezer@));
    }
}

/// Cycles: a complex value whose field `i` points back to itself freezes to
/// a frozen value whose field `i` points back to that frozen value.
pub proof fn law_freeze_self_cycle(
    freezer: Freezer,
    heap: MutableHeap,
    frozen: FrozenHeap,
    a: usize,
    i: int,
    fv: FrozenValue,
)
    requires
        freezer.wf(&heap, &frozen),
        a < heap@.len(),
        freezes_to(Value::Mutable(a), fv, freezer@),
        0 <= i < heap@[a as int].children().len(),
        heap@[a as int].children()[i] == Value::Mutable(a),
    ensures
        fv matches FrozenValue::Frozen(f) && frozen@[f as int] matches FrozenObject::Complex(d) && i < d.fields@.len()
            && d.fields@[i] == fv,
{
    law_freeze_keeps_edges(freezer, heap, frozen, a, i, a);
}

/// Trace liveness: after a collection pass, each root, rewritten, shows the
/// same value as before, however deep it is unfolded.
pub proof fn law_trace_keeps_roots(
    old_heap: Seq<MutObject>,
    new_heap: Seq<MutObject>,
    forward: Seq<Option<usize>>,
    v: Value,
    w: Value,
    depth: nat,
    flen: int,
)
    requires
        forall|i: int| 0 <= i < old_heap.len() ==> (#[trigger] old_heap[i]).refs_valid(old_heap.len() as int, flen),
        forward.len() == old_heap.len(),
        forall|a: int|
            0 <= a < old_heap.len() && (#[trigger] forward[a]) is Some ==> {
                &&& forward[a]->0 < new_heap.len()
                &&& relocated(old_heap[a], new_heap[forward[a]->0 as int], forward)
            },
        v.valid_in(old_heap.len() as int, flen),
        relocates(v, w, forward),
    ensures
        agrees_moved(old_heap, new_heap, v, w, depth),
    decreases depth,
{
    if let Value::Mutable(a) = v {
        if depth > 0 {
            let b = forward[a as int]->0;
            assert(relocated(old_heap[a as int], new_heap[b as int], forward));
            assert(old_heap[a as int].refs_valid(old_heap.len() as int, flen));
            if let (MutObject::Complex(c), MutObject::Complex(d)) = (old_heap[a as int], new_heap[b as int]) {
                assert forall|i: int| 0 <= i < c.fields@.len() implies agrees_moved(
                    old_heap,
                    new_heap,
                    #[trigger] c.fields@[i],
                    d.fields@[i],
                    (depth - 1) as nat,
                ) by {
                    assert(old_heap[a as int].children()[i] == c.fields@[i]);
                    assert(relocates(c.fields@[i], d.fields@[i], forward));
                    law_trace_keeps_roots(old_heap, new_heap, forward, c.fields@[i], d.fields@[i], (depth - 1) as nat, flen);
                }
            }
        }
    }
}

/// A typed handle carried through a collection pass is still backed by its
/// family afterwards: a pass never changes the type behind a handle.
pub proof fn law_trace_keeps_type(
    old_heap: Seq<MutObject>,
    new_heap: Seq<MutObject>,
    frozen: Seq<FrozenObject>,
    forward: Seq<Option<usize>>,
    v: Value,
    w: Value,
    family: u64,
)
    requires
        forward.len() == old_heap.len(),
        forall|a: int|
            0 <= a < old_heap.len() && (#[trigger] forward[a]) is Some ==> {
                &&& forward[a]->0 < new_heap.len()
                &&& relocated(old_heap[a], new_heap[forward[a]->0 as int], forward)
            },
        v.valid_in(old_heap.len() as int, frozen.len() as int),
        backs_family(v, family, old_heap, frozen),
        relocates(v, w, forward),
    ensures
        w.valid_in(new_heap.len() as int, frozen.len() as int),
        backs_family(w, family, new_heap, frozen),
{
    if let Value::Mutable(a) = v {
        assert(relocated(old_heap[a as int], new_heap[forward[a as int]->0 as int], forward));
    }
}

} // verus!
