use vstd::prelude::*;

use crate::frozen::FrozenHeap;
use crate::heap::{ComplexValue, MutObject, MutableHeap};
use crate::reach::{collect, is_listing, children_reached, reaches};
use crate::value::Value;

verus! {

/// `w` is `v` after a collection pass that moved the mutable object at `a`
/// to `forward[a]`.
pub open spec fn relocates(v: Value, w: Value, forward: Seq<Option<usize>>) -> bool {
    match v {
        Value::Imm(i) => w == Value::Imm(i),
        Value::Frozen(a) => w == Value::Frozen(a),
        Value::Mutable(a) => forward[a as int] matches Some(n) && w == Value::Mutable(n),
    }
}

/// No object marked: a collection pass starts from nothing.
pub open spec fn unmarked(n: nat) -> Seq<Option<usize>> {
    Seq::new(n, |_i: int| None::<usize>)
}

/// Some object was moved to address `m`.
pub open spec fn is_forwarded_to(forward: Seq<Option<usize>>, m: int) -> bool {
    exists|a: int| 0 <= a < forward.len() && #[trigger] forward[a] == Some(m as usize)
}

/// `new` holds what `old` holds, with each handle relocated.
pub open spec fn relocated(old: MutObject, new: MutObject, forward: Seq<Option<usize>>) -> bool {
    match (old, new) {
        (MutObject::Str(s), MutObject::Str(t)) => s@ == t@,
        (MutObject::Complex(c), MutObject::Complex(d)) => {
            &&& c.family == d.family
            &&& c.freezable == d.freezable
            &&& c.fields@.len() == d.fields@.len()
            &&& forall|i: int|
                0 <= i < c.fields@.len() ==> relocates(#[trigger] c.fields@[i], d.fields@[i], forward)
        },
        _ => false,
    }
}

/// Runs one collection pass over `heap`, with `roots` as the root set and a
/// `frozen` beside it.
///
/// The objects reachable from the roots are kept and packed at the start of
/// the heap; the others are dropped. The result maps each old address to
/// the new one, for the objects kept. Every root and every handle inside a
/// kept object is rewritten in place to follow its object.
pub fn trace(heap: &mut MutableHeap, roots: &mut Vec<Value>, frozen: &FrozenHeap) -> (forward: Vec<Option<usize>>)
    requires
        old(heap).wf(frozen@.len() as int),
        forall|i: int| 0 <= i < old(roots)@.len() ==> (#[trigger] old(roots)@[i]).valid_in(old(heap)@.len() as int, frozen@.len() as int),
    ensures
        forward@.len() == old(heap)@.len(),
        final(heap).wf(frozen@.len() as int),
        final(heap)@.len() <= old(heap)@.len(),
        final(roots)@.len() == old(roots)@.len(),
        forall|i: int| 0 <= i < old(roots)@.len() ==> relocates(#[trigger] old(roots)@[i], final(roots)@[i], forward@),
        forall|a: int|
            0 <= a < old(heap)@.len() && (#[trigger] forward@[a]) is Some ==> {
                &&& forward@[a]->0 < final(heap)@.len()
                &&& relocated(old(heap)@[a], final(heap)@[forward@[a]->0 as int], forward@)
            },
        forall|m: int| 0 <= m < final(heap)@.len() ==> #[trigger] is_forwarded_to(forward@, m),
        forall|a: int|
            0 <= a < old(heap)@.len() ==> ((#[trigger] forward@[a]) is Some <==> reaches(
                old(heap)@,
                unmarked(old(heap)@.len()),
                old(roots)@,
                a,
            )),
{
    let ghost flen = frozen@.len() as int;
    let n = heap.len();
    let none: Vec<Option<usize>> = vec![None; n];
    assert(none@ =~= unmarked(n as nat));
    let (order, index) = collect(heap, Ghost(flen), &none, roots);
    let ghost h = heap@;
    let mut objects: Vec<MutObject> = Vec::new();
    let mut k: usize = 0;
    while k < order.len()
        invariant
            flen == frozen@.len(),
            h == heap@,
            n == h.len(),
            heap.wf(frozen@.len() as int),
            none@.len() == n,
            forall|a: int| 0 <= a < n ==> #[trigger] none@[a] is None,
            is_listing(h, none@, order@, index@),
            forall|a: int| 0 <= a < n && (#[trigger] index@[a]) is Some ==> children_reached(h, none@, index@, a),
            k <= order@.len(),
            objects@.len() == k,
            forall|q: int| 0 <= q < k ==> relocated(h[#[trigger] order@[q] as int], objects@[q], index@),
            forall|q: int| 0 <= q < k ==> (#[trigger] objects@[q]).refs_valid(order@.len() as int, frozen@.len() as int),
        decreases order@.len() - k,
    {
        let b = order[k];
        assert(index@[b as int] is Some);
        assert(children_reached(h, none@, index@, b as int));
        assert(h[b as int].refs_valid(n as int, frozen@.len() as int));
        let obj = relocate_object(heap.get(b), &index, Ghost(order@.len() as int), Ghost(flen));
        objects.push(obj);
        k += 1;
    }
    *heap = MutableHeap::from_objects(objects);
    let mut r: usize = 0;
    let ghost old_roots = roots@;
    while r < roots.len()
        invariant
            roots@.len() == old_roots.len(),
            r <= roots@.len(),
            is_listing(h, none@, order@, index@),
            forall|a: int| 0 <= a < n ==> #[trigger] none@[a] is None,
            n == h.len(),
            crate::reach::roots_reached(old_roots, none@, index@),
            forall|i: int| 0 <= i < old_roots.len() ==> (#[trigger] old_roots[i]).valid_in(n as int, frozen@.len() as int),
            forall|i: int| 0 <= i < r ==> relocates(#[trigger] old_roots[i], roots@[i], index@),
            forall|i: int| r <= i < roots@.len() ==> #[trigger] roots@[i] == old_roots[i],
        decreases old_roots.len() - r,
    {
        let v = roots[r];
        let w = match v {
            Value::Mutable(a) => match index[a] {
                Some(p) => Value::Mutable(p),
                None => v,
            },
            _ => v,
        };
        roots.set(r, w);
        r += 1;
    }
    proof {
        assert forall|m: int| 0 <= m < heap@.len() implies #[trigger] is_forwarded_to(index@, m) by {
            assert(index@[order@[m] as int] == Some(m as usize));
        }
    }
    index
}

/// `obj` with each mutable handle moved by `forward`.
fn relocate_object(obj: &MutObject, forward: &Vec<Option<usize>>, mlen: Ghost<int>, flen: Ghost<int>) -> (r: MutObject)
    requires
        obj.refs_valid(forward@.len() as int, flen@),
        forall|j: int|
            0 <= j < obj.children().len() ==> (#[trigger] obj.children()[j] matches Value::Mutable(b)
                ==> (forward@[b as int] matches Some(f) && f < mlen@)),
    ensures
        relocated(*obj, r, forward@),
        r.refs_valid(mlen@, flen@),
{
    match obj {
        MutObject::Str(s) => MutObject::Str(s.clone()),
        MutObject::Complex(c) => {
            let mut fields: Vec<Value> = Vec::new();
            let mut i: usize = 0;
            while i < c.fields.len()
                invariant
                    obj.children() == c.fields@,
                    forall|j: int|
                        0 <= j < c.fields@.len() ==> (#[trigger] c.fields@[j]).valid_in(forward@.len() as int, flen@),
                    forall|j: int|
                        0 <= j < c.fields@.len() ==> (#[trigger] c.fields@[j] matches Value::Mutable(b)
                            ==> (forward@[b as int] matches Some(f) && f < mlen@)),
                    i <= c.fields@.len(),
                    fields@.len() == i,
                    forall|j: int| 0 <= j < i ==> relocates(#[trigger] c.fields@[j], fields@[j], forward@),
                    forall|j: int| 0 <= j < i ==> (#[trigger] fields@[j]).valid_in(mlen@, flen@),
                decreases c.fields@.len() - i,
            {
                let w = match c.fields[i] {
                    Value::Mutable(a) => match forward[a] {
                        Some(p) => Value::Mutable(p),
                        None => Value::Mutable(a),
                    },
                    v => v,
                };
                fields.push(w);
                i += 1;
            }
            MutObject::Complex(ComplexValue { family: c.family, fields, freezable: c.freezable })
        },
    }
}

} // verus!
