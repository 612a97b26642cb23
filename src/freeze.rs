use vstd::prelude::*;

use crate::frozen::{FrozenComplex, FrozenHeap, FrozenObject};
use crate::heap::{MutObject, MutableHeap};
use crate::reach::{
    children_reached, collect, count_some, is_listing, lemma_count_some_bound, lemma_count_some_fill,
    lemma_count_some_none, reaches, roots_reached,
};
use crate::value::{FrozenValue, Value};

verus! {

/// Why a freeze could not complete.
#[derive(Clone, Copy, Debug, PartialEq, Eq, Structural)]
pub enum FreezeError {
    /// The mutable object at this address declares itself non-freezable.
    NotFreezable(usize),
}

/// How a handle held by a mutable object is carried into the frozen graph,
/// given the addresses already assigned to mutable objects in `memo`.
pub open spec fn freezes_to(v: Value, fv: FrozenValue, memo: Seq<Option<usize>>) -> bool {
    match v {
        Value::Imm(i) => fv == FrozenValue::Imm(i),
        Value::Frozen(a) => fv == FrozenValue::Frozen(a),
        Value::Mutable(a) => memo[a as int] matches Some(f) && fv == FrozenValue::Frozen(f),
    }
}

/// The frozen object holds what the mutable one holds: the same text, or the
/// same family with each field carried over by `freezes_to`.
pub open spec fn corresponds(m: MutObject, f: FrozenObject, memo: Seq<Option<usize>>) -> bool {
    match (m, f) {
        (MutObject::Str(s), FrozenObject::Str(t)) => s@ == t@,
        (MutObject::Complex(c), FrozenObject::Complex(d)) => {
            &&& c.family == d.family
            &&& c.fields@.len() == d.fields@.len()
            &&& forall|i: int|
                0 <= i < c.fields@.len() ==> freezes_to(
                    #[trigger] c.fields@[i],
                    d.fields@[i],
                    memo,
                )
        },
        _ => false,
    }
}

/// Some mutable object reached from `roots` through objects not frozen yet
/// declares itself non-freezable.
pub open spec fn blocks_freeze(heap: Seq<MutObject>, memo: Seq<Option<usize>>, roots: Seq<Value>) -> bool {
    exists|b: int| 0 <= b < heap.len() && reaches(heap, memo, roots, b) && !(#[trigger] heap[b]).can_freeze()
}

/// `new` extends `old`: every address assigned in `old` keeps its target.
pub open spec fn memo_extends(new: Seq<Option<usize>>, old: Seq<Option<usize>>) -> bool {
    &&& new.len() == old.len()
    &&& forall|a: int| 0 <= a < old.len() && (#[trigger] old[a]) is Some ==> new[a] == old[a]
}

/// `new` keeps every object of `old` at its address.
pub open spec fn heap_extends(new: Seq<FrozenObject>, old: Seq<FrozenObject>) -> bool {
    &&& new.len() >= old.len()
    &&& forall|i: int| 0 <= i < old.len() ==> #[trigger] new[i] == old[i]
}

/// The state of freezing one mutable heap into one frozen heap: for each
/// mutable address, the frozen address it was given, if it was frozen.
/// Kept across calls, so that an object reached twice is frozen once.
pub struct Freezer {
    memo: Vec<Option<usize>>,
}

impl View for Freezer {
    type V = Seq<Option<usize>>;

    closed spec fn view(&self) -> Seq<Option<usize>> {
        self.memo@
    }
}

impl Freezer {
    /// Each frozen mutable object has a frozen counterpart in `frozen` that
    /// holds what it holds.
    pub open spec fn wf(&self, heap: &MutableHeap, frozen: &FrozenHeap) -> bool {
        &&& self@.len() == heap@.len()
        &&& heap.wf(frozen@.len() as int)
        &&& frozen.wf()
        &&& forall|a: int|
            0 <= a < self@.len() && (#[trigger] self@[a]) is Some ==> {
                &&& self@[a]->0 < frozen@.len()
                &&& corresponds(heap@[a], frozen@[self@[a]->0 as int], self@)
            }
    }

    /// A freezer for `heap` that has frozen nothing yet.
    pub fn new(heap: &MutableHeap) -> (r: Freezer)
        ensures
            r@.len() == heap@.len(),
            forall|a: int| 0 <= a < r@.len() ==> #[trigger] r@[a] is None,
            count_some(r@) == 0,
    {
        let r = Freezer { memo: vec![None; heap.len()] };
        proof {
            lemma_count_some_none(r@);
        }
        r
    }

    /// The frozen address given to the mutable object at `addr`, if any.
    pub fn frozen_address(&self, addr: usize) -> (r: Option<usize>)
        requires
            addr < self@.len(),
        ensures
            r == self@[addr as int],
    {
        self.memo[addr]
    }

    /// Freezes `v` and everything reachable from it into `target`.
    ///
    /// Immediates and frozen handles come back as they are, with nothing
    /// changed. A mutable object already frozen by this freezer comes back
    /// as the same frozen handle. Otherwise every mutable object reachable
    /// from `v` that is not frozen yet is checked: if one of them declares
    /// itself non-freezable, the call fails and neither `target` nor the
    /// freezer changes; else each gets exactly one frozen counterpart.
    pub fn freeze(&mut self, v: Value, heap: &MutableHeap, target: &mut FrozenHeap) -> (r: Result<
        FrozenValue,
        FreezeError,
    >)
        requires
            old(self).wf(heap, old(target)),
            v.valid_in(heap@.len() as int, old(target)@.len() as int),
            old(target)@.len() + (heap@.len() - count_some(old(self)@)) <= usize::MAX,
        ensures
            final(target)@.len() + count_some(old(self)@) == old(target)@.len() + count_some(final(self)@),
            match r {
                Ok(fv) => {
                    &&& final(self).wf(heap, final(target))
                    &&& freezes_to(v, fv, final(self)@)
                    &&& memo_extends(final(self)@, old(self)@)
                    &&& heap_extends(final(target)@, old(target)@)
                },
                Err(FreezeError::NotFreezable(a)) => {
                    &&& final(self)@ == old(self)@
                    &&& final(target)@ == old(target)@
                    &&& a < heap@.len()
                    &&& old(self)@[a as int] is None
                    &&& !heap@[a as int].can_freeze()
                },
            },
            r is Err <==> blocks_freeze(heap@, old(self)@, seq![v]),
            r matches Err(FreezeError::NotFreezable(a)) ==> reaches(heap@, old(self)@, seq![v], a as int),
            v matches Value::Imm(i) ==> r == Ok::<FrozenValue, FreezeError>(FrozenValue::Imm(i)),
            v matches Value::Frozen(a) ==> r == Ok::<FrozenValue, FreezeError>(FrozenValue::Frozen(a)),
            !(v is Mutable) ==> final(target)@ == old(target)@ && final(self)@ == old(self)@,
            v matches Value::Mutable(a) ==> (old(self)@[a as int] is Some ==> (final(target)@ == old(target)@
                && final(self)@ == old(self)@)),
    {
        let a = match v {
            Value::Imm(i) => {
                return Ok(FrozenValue::Imm(i));
            },
            Value::Frozen(f) => {
                return Ok(FrozenValue::Frozen(f));
            },
            Value::Mutable(a) => a,
        };
        match self.memo[a] {
            Some(f) => {
                return Ok(FrozenValue::Frozen(f));
            },
            None => {},
        }
        let ghost flen = target@.len() as int;
        let roots = vec![v];
        let (order, index) = collect(heap, Ghost(flen), &self.memo, &roots);
        assert(roots@[0] == v);
        assert(roots@ =~= seq![v]);
        assert(index@[a as int] is Some);
        match find_blocker(heap, &order) {
            Some(b) => {
                proof {
                    let k = choose|k: int| 0 <= k < order@.len() && order@[k] == b && !heap@[b as int].can_freeze();
                    assert(index@[order@[k] as int] is Some);
                    assert(reaches(heap@, self@, roots@, b as int));
                }
                return Err(FreezeError::NotFreezable(b));
            },
            None => {},
        }
        proof {
            assert forall|b: int| 0 <= b < heap@.len() && reaches(heap@, self@, seq![v], b) implies #[trigger] heap@[b].can_freeze() by {
                assert(index@[b] is Some);
                assert(order@[index@[b]->0 as int] == b);
            }
        }
        self.commit(heap, target, &order, &index);
        let f = match self.memo[a] {
            Some(f) => f,
            None => 0,
        };
        Ok(FrozenValue::Frozen(f))
    }

    /// Freezes every value of `roots` at once, as a module's globals are
    /// frozen when its evaluation ends. Either every mutable object reachable
    /// from the roots that is not frozen yet can be frozen, and each root
    /// comes back frozen, in order; or the call fails and neither `target`
    /// nor the freezer changes.
    pub fn freeze_all(&mut self, roots: &Vec<Value>, heap: &MutableHeap, target: &mut FrozenHeap) -> (r: Result<
        Vec<FrozenValue>,
        FreezeError,
    >)
        requires
            old(self).wf(heap, old(target)),
            forall|i: int|
                0 <= i < roots@.len() ==> (#[trigger] roots@[i]).valid_in(heap@.len() as int, old(target)@.len() as int),
            old(target)@.len() + (heap@.len() - count_some(old(self)@)) <= usize::MAX,
        ensures
            final(target)@.len() + count_some(old(self)@) == old(target)@.len() + count_some(final(self)@),
            match r {
                Ok(out) => {
                    &&& final(self).wf(heap, final(target))
                    &&& out@.len() == roots@.len()
                    &&& forall|i: int| 0 <= i < roots@.len() ==> freezes_to(#[trigger] roots@[i], out@[i], final(self)@)
                    &&& memo_extends(final(self)@, old(self)@)
                    &&& heap_extends(final(target)@, old(target)@)
                },
                Err(FreezeError::NotFreezable(a)) => {
                    &&& final(self)@ == old(self)@
                    &&& final(target)@ == old(target)@
                    &&& a < heap@.len()
                    &&& reaches(heap@, old(self)@, roots@, a as int)
                    &&& !heap@[a as int].can_freeze()
                },
            },
            r is Err <==> blocks_freeze(heap@, old(self)@, roots@),
    {
        let ghost flen = target@.len() as int;
        let (order, index) = collect(heap, Ghost(flen), &self.memo, roots);
        match find_blocker(heap, &order) {
            Some(b) => {
                proof {
                    let k = choose|k: int| 0 <= k < order@.len() && order@[k] == b && !heap@[b as int].can_freeze();
                    assert(index@[order@[k] as int] is Some);
                    assert(reaches(heap@, self@, roots@, b as int));
                }
                return Err(FreezeError::NotFreezable(b));
            },
            None => {},
        }
        proof {
            assert forall|b: int| 0 <= b < heap@.len() && reaches(heap@, self@, roots@, b) implies #[trigger] heap@[b].can_freeze() by {
                assert(index@[b] is Some);
                assert(order@[index@[b]->0 as int] == b);
            }
        }
        let ghost old_memo = self@;
        self.commit(heap, target, &order, &index);
        let mut out: Vec<FrozenValue> = Vec::new();
        let mut i: usize = 0;
        while i < roots.len()
            invariant
                self.wf(heap, target),
                i <= roots@.len(),
                out@.len() == i,
                self@.len() == heap@.len(),
                forall|j: int| 0 <= j < roots@.len() ==> (#[trigger] roots@[j]).valid_in(heap@.len() as int, flen),
                roots_reached(roots@, old_memo, index@),
                memo_extends(self@, old_memo),
                forall|b: int| 0 <= b < heap@.len() && (#[trigger] index@[b]) is Some ==> self@[b] is Some,
                forall|j: int| 0 <= j < i ==> freezes_to(#[trigger] roots@[j], out@[j], self@),
            decreases roots@.len() - i,
        {
            let fv = match roots[i] {
                Value::Imm(x) => FrozenValue::Imm(x),
                Value::Frozen(f) => FrozenValue::Frozen(f),
                Value::Mutable(a) => match self.memo[a] {
                    Some(f) => FrozenValue::Frozen(f),
                    None => FrozenValue::Frozen(0),
                },
            };
            proof {
                if let Value::Mutable(a) = roots@[i as int] {
                    if old_memo[a as int] is None {
                        assert(index@[a as int] is Some);
                    }
                }
            }
            out.push(fv);
            i += 1;
        }
        Ok(out)
    }

    /// Gives every listed object its frozen counterpart in `target`: the
    /// object `order[k]` gets the address `base + k`, where `base` is the
    /// length of `target` before the call.
    fn commit(
        &mut self,
        heap: &MutableHeap,
        target: &mut FrozenHeap,
        order: &Vec<usize>,
        index: &Vec<Option<usize>>,
    )
        requires
            old(self).wf(heap, old(target)),
            old(target)@.len() + (heap@.len() - count_some(old(self)@)) <= usize::MAX,
            is_listing(heap@, old(self)@, order@, index@),
            forall|b: int|
                0 <= b < heap@.len() && (#[trigger] index@[b]) is Some ==> children_reached(heap@, old(self)@, index@, b),
        ensures
            final(self).wf(heap, final(target)),
            final(target)@.len() + count_some(old(self)@) == old(target)@.len() + count_some(final(self)@),
            forall|b: int|
                0 <= b < heap@.len() && (#[trigger] index@[b]) is Some ==> final(self)@[b] == Some(
                    (old(target)@.len() + index@[b]->0) as usize,
                ),
            memo_extends(final(self)@, old(self)@),
            heap_extends(final(target)@, old(target)@),
    {
        let base = target.len();
        let ghost old_memo = self@;
        let ghost old_target = target@;
        let m = order.len();
        proof {
            assert(m == order@.len());
            assert forall|q1: int, q2: int| 0 <= q1 < q2 < order@.len() implies #[trigger] order@[q1] != #[trigger] order@[q2] by {
                assert(index@[order@[q1] as int] == Some(q1 as usize));
                assert(index@[order@[q2] as int] == Some(q2 as usize));
            }
        }
        self.assign(order, base, Ghost(heap@.len() as int));
        proof {
            lemma_count_some_bound(self@);
        }
        self.build(heap, order, target, Ghost(old_memo), Ghost(index@));
        proof {
            assert forall|b: int| 0 <= b < heap@.len() && (#[trigger] index@[b]) is Some implies self@[b] == Some(
                (old_target.len() + index@[b]->0) as usize,
            ) by {
                assert(order@[index@[b]->0 as int] == b);
            }
            let new_memo = self@;
            assert forall|b: int| 0 <= b < old_memo.len() && (#[trigger] old_memo[b]) is Some implies new_memo[b]
                == old_memo[b] by {
                assert forall|k: int| 0 <= k < order@.len() implies #[trigger] order@[k] != b by {
                    assert(old_memo[order@[k] as int] is None);
                }
            }
            assert forall|b: int| 0 <= b < new_memo.len() && (#[trigger] new_memo[b]) is Some implies {
                &&& new_memo[b]->0 < target@.len()
                &&& corresponds(heap@[b], target@[new_memo[b]->0 as int], new_memo)
            } by {
                if index@[b] is Some {
                    let k = index@[b]->0 as int;
                    assert(order@[k] == b);
                } else {
                    assert forall|k: int| 0 <= k < order@.len() implies #[trigger] order@[k] != b by {
                        assert(index@[order@[k] as int] == Some(k as usize));
                    }
                    assert(old_memo[b] is Some);
                    let f = old_memo[b]->0 as int;
                    assert(corresponds(heap@[b], old_target[f], old_memo));
                    assert(heap@[b].refs_valid(heap@.len() as int, old_target.len() as int));
                    assert forall|j: int| 0 <= j < heap@[b].children().len() implies (#[trigger] heap@[b].children()[j] matches Value::Mutable(c) ==> c < old_memo.len()) by {
                        assert(heap@[b].children()[j].valid_in(heap@.len() as int, old_target.len() as int));
                    }
                    lemma_corresponds_extends(heap@[b], old_target[f], old_memo, new_memo);
                }
            }
            assert forall|i: int| 0 <= i < heap@.len() implies (#[trigger] heap@[i]).refs_valid(heap@.len() as int, target@.len() as int) by {
                assert(heap@[i].refs_valid(heap@.len() as int, old_target.len() as int));
                assert forall|j: int| 0 <= j < heap@[i].children().len() implies (#[trigger] heap@[i].children()[j]).valid_in(heap@.len() as int, target@.len() as int) by {
                    assert(heap@[i].children()[j].valid_in(heap@.len() as int, old_target.len() as int));
                }
            }
        }
    }

    /// Gives the object `order[k]` the frozen address `base + k`.
    fn assign(&mut self, order: &Vec<usize>, base: usize, n: Ghost<int>)
        requires
            old(self)@.len() == n@,
            order@.len() <= n@,
            base + (n@ - count_some(old(self)@)) <= usize::MAX,
            forall|k: int| 0 <= k < order@.len() ==> (#[trigger] order@[k]) < n@,
            forall|k: int| 0 <= k < order@.len() ==> old(self)@[#[trigger] order@[k] as int] is None,
            forall|q1: int, q2: int|
                0 <= q1 < q2 < order@.len() ==> #[trigger] order@[q1] != #[trigger] order@[q2],
        ensures
            final(self)@.len() == n@,
            count_some(final(self)@) == count_some(old(self)@) + order@.len(),
            forall|k: int|
                0 <= k < order@.len() ==> final(self)@[#[trigger] order@[k] as int] == Some((base + k) as usize),
            forall|a: int|
                0 <= a < n@ && (forall|k: int| 0 <= k < order@.len() ==> #[trigger] order@[k] != a) ==> #[trigger] final(self)@[a] == old(self)@[a],
    {
        let mut k: usize = 0;
        while k < order.len()
            invariant
                self@.len() == n@,
                order@.len() <= n@,
                base + (n@ - count_some(old(self)@)) <= usize::MAX,
                count_some(self@) == count_some(old(self)@) + k,
                forall|q: int| 0 <= q < order@.len() ==> (#[trigger] order@[q]) < n@,
                forall|q: int| 0 <= q < order@.len() ==> old(self)@[#[trigger] order@[q] as int] is None,
                k <= order@.len(),
                forall|q1: int, q2: int|
                    0 <= q1 < q2 < order@.len() ==> #[trigger] order@[q1] != #[trigger] order@[q2],
                forall|q: int| 0 <= q < k ==> self@[#[trigger] order@[q] as int] == Some((base + q) as usize),
                forall|a: int|
                    0 <= a < n@ && (forall|q: int| 0 <= q < k ==> #[trigger] order@[q] != a) ==> #[trigger] self@[a]
                        == old(self)@[a],
            decreases order@.len() - k,
        {
            proof {
                let b = order@[k as int] as int;
                assert(forall|q: int| 0 <= q < k ==> #[trigger] order@[q] != b);
                assert(self@[b] is None);
                lemma_count_some_fill(self@, b, (base + k) as usize);
                lemma_count_some_bound(self@.update(b, Some((base + k) as usize)));
            }
            self.memo.set(order[k], Some(base + k));
            k += 1;
        }
    }

    /// Stores, at `base + k`, the frozen counterpart of the object `order[k]`.
    fn build(
        &self,
        heap: &MutableHeap,
        order: &Vec<usize>,
        target: &mut FrozenHeap,
        old_memo: Ghost<Seq<Option<usize>>>,
        index: Ghost<Seq<Option<usize>>>,
    )
        requires
            heap.wf(old(target)@.len() as int),
            old(target).wf(),
            old(target)@.len() + order@.len() <= usize::MAX,
            is_listing(heap@, old_memo@, order@, index@),
            forall|a: int|
                0 <= a < heap@.len() && (#[trigger] index@[a]) is Some ==> children_reached(
                    heap@,
                    old_memo@,
                    index@,
                    a,
                ),
            self@.len() == heap@.len(),
            forall|k: int|
                0 <= k < order@.len() ==> self@[#[trigger] order@[k] as int] == Some(
                    (old(target)@.len() + k) as usize,
                ),
            forall|a: int|
                0 <= a < heap@.len() && (forall|k: int| 0 <= k < order@.len() ==> #[trigger] order@[k] != a)
                    ==> #[trigger] self@[a] == old_memo@[a],
            forall|a: int|
                0 <= a < heap@.len() && (#[trigger] old_memo@[a]) is Some ==> old_memo@[a]->0 < old(target)@.len(),
        ensures
            final(target)@.len() == old(target)@.len() + order@.len(),
            heap_extends(final(target)@, old(target)@),
            final(target).wf(),
            forall|k: int|
                0 <= k < order@.len() ==> corresponds(
                    heap@[#[trigger] order@[k] as int],
                    final(target)@[old(target)@.len() + k],
                    self@,
                ),
    {
        let ghost base = target@.len() as int;
        let ghost limit = base + order@.len();
        assert forall|a: int| 0 <= a < heap@.len() && (#[trigger] index@[a]) is Some implies memo_ready(
            heap@,
            self@,
            limit,
            a,
        ) by {
            assert forall|j: int| 0 <= j < heap@[a].children().len() implies (#[trigger] heap@[a].children()[j] matches Value::Mutable(b)
                ==> (self@[b as int] matches Some(f) && f < limit)) by {
                assert(heap@[a].refs_valid(heap@.len() as int, base));
                assert(heap@[a].children()[j].valid_in(heap@.len() as int, base));
                if let Value::Mutable(b) = heap@[a].children()[j] {
                    if old_memo@[b as int] is Some {
                        if exists|k: int| 0 <= k < order@.len() && order@[k] == b {
                            let k = choose|k: int| 0 <= k < order@.len() && order@[k] == b;
                            assert(old_memo@[order@[k] as int] is None);
                        }
                    } else {
                        assert(children_reached(heap@, old_memo@, index@, a));
                        let k = index@[b as int]->0 as int;
                        assert(order@[k] == b);
                    }
                }
            }
        }
        let mut k: usize = 0;
        while k < order.len()
            invariant
                base == old(target)@.len(),
                self@.len() == heap@.len(),
                limit == base + order@.len(),
                limit <= usize::MAX,
                heap.wf(base),
                is_listing(heap@, old_memo@, order@, index@),
                forall|a: int|
                    0 <= a < heap@.len() && (#[trigger] index@[a]) is Some ==> memo_ready(heap@, self@, limit, a),
                forall|k: int|
                    0 <= k < order@.len() ==> self@[#[trigger] order@[k] as int] == Some((base + k) as usize),
                k <= order@.len(),
                target@.len() == base + k,
                forall|i: int| 0 <= i < base ==> #[trigger] target@[i] == old(target)@[i],
                forall|i: int| 0 <= i < target@.len() ==> (#[trigger] target@[i]).refs_valid(limit),
                forall|q: int|
                    0 <= q < k ==> corresponds(
                        heap@[#[trigger] order@[q] as int],
                        target@[base + q],
                        self@,
                    ),
                old(target).wf(),
            decreases order@.len() - k,
        {
            let b = order[k];
            assert(index@[b as int] is Some);
            assert(heap@[b as int].refs_valid(heap@.len() as int, base));
            let obj = freeze_object(heap.get(b), &self.memo, Ghost(heap@.len() as int), Ghost(base), Ghost(limit));
            target.alloc_simple(obj);
            k += 1;
        }
    }
}

/// An address of `order` whose object declares itself non-freezable, if any.
fn find_blocker(heap: &MutableHeap, order: &Vec<usize>) -> (r: Option<usize>)
    requires
        forall|k: int| 0 <= k < order@.len() ==> (#[trigger] order@[k]) < heap@.len(),
    ensures
        r matches Some(b) ==> exists|k: int| 0 <= k < order@.len() && order@[k] == b && !(#[trigger] heap@[b as int]).can_freeze(),
        r is None ==> forall|k: int| 0 <= k < order@.len() ==> (#[trigger] heap@[order@[k] as int]).can_freeze(),
{
    let mut k: usize = 0;
    while k < order.len()
        invariant
            forall|q: int| 0 <= q < order@.len() ==> (#[trigger] order@[q]) < heap@.len(),
            k <= order@.len(),
            forall|q: int| 0 <= q < k ==> (#[trigger] heap@[order@[q] as int]).can_freeze(),
        decreases order@.len() - k,
    {
        let b = order[k];
        if !heap.get(b).is_freezable() {
            assert(order@[k as int] == b);
            return Some(b);
        }
        k += 1;
    }
    None
}

/// Every mutable child of object `a` has been given a frozen address below `limit`.
pub open spec fn memo_ready(heap: Seq<MutObject>, memo: Seq<Option<usize>>, limit: int, a: int) -> bool {
    forall|j: int|
        0 <= j < heap[a].children().len() ==> (#[trigger] heap[a].children()[j] matches Value::Mutable(b)
            ==> (memo[b as int] matches Some(f) && f < limit))
}

/// The frozen counterpart of `obj`, once all its mutable children have
/// frozen addresses in `memo`.
fn freeze_object(obj: &MutObject, memo: &Vec<Option<usize>>, mlen: Ghost<int>, flen: Ghost<int>, limit: Ghost<int>) -> (r: FrozenObject)
    requires
        obj.refs_valid(mlen@, flen@),
        flen@ <= limit@,
        memo@.len() == mlen@,
        forall|j: int|
            0 <= j < obj.children().len() ==> (#[trigger] obj.children()[j] matches Value::Mutable(b)
                ==> (memo@[b as int] matches Some(f) && f < limit@)),
    ensures
        corresponds(*obj, r, memo@),
        r.refs_valid(limit@),
{
    match obj {
        MutObject::Str(s) => FrozenObject::Str(s.clone()),
        MutObject::Complex(c) => {
            let mut fields: Vec<FrozenValue> = Vec::new();
            let mut i: usize = 0;
            while i < c.fields.len()
                invariant
                    obj.children() == c.fields@,
                    forall|j: int|
                        0 <= j < c.fields@.len() ==> (#[trigger] c.fields@[j]).valid_in(mlen@, flen@),
                    forall|j: int|
                        0 <= j < c.fields@.len() ==> (#[trigger] c.fields@[j] matches Value::Mutable(b)
                            ==> (memo@[b as int] matches Some(f) && f < limit@)),
                    flen@ <= limit@,
                    memo@.len() == mlen@,
                    i <= c.fields@.len(),
                    fields@.len() == i,
                    forall|j: int| 0 <= j < i ==> freezes_to(#[trigger] c.fields@[j], fields@[j], memo@),
                    forall|j: int| 0 <= j < i ==> (#[trigger] fields@[j]).valid_in(limit@),
                decreases c.fields@.len() - i,
            {
                let fv = match c.fields[i] {
                    Value::Imm(x) => FrozenValue::Imm(x),
                    Value::Frozen(a) => FrozenValue::Frozen(a),
                    Value::Mutable(a) => match memo[a] {
                        Some(f) => FrozenValue::Frozen(f),
                        None => FrozenValue::Frozen(0),
                    },
                };
                fields.push(fv);
                i += 1;
            }
            FrozenObject::Complex(FrozenComplex { family: c.family, fields })
        },
    }
}

/// A correspondence stays true when more mutable objects get frozen.
pub proof fn lemma_corresponds_extends(
    m: MutObject,
    f: FrozenObject,
    memo1: Seq<Option<usize>>,
    memo2: Seq<Option<usize>>,
)
    requires
        corresponds(m, f, memo1),
        memo_extends(memo2, memo1),
        forall|j: int| 0 <= j < m.children().len() ==> (#[trigger] m.children()[j] matches Value::Mutable(b) ==> b < memo1.len()),
    ensures
        corresponds(m, f, memo2),
{
    if let (MutObject::Complex(c), FrozenObject::Complex(d)) = (m, f) {
        assert forall|i: int| 0 <= i < c.fields@.len() implies freezes_to(
            #[trigger] c.fields@[i],
            d.fields@[i],
            memo2,
        ) by {
            assert(freezes_to(c.fields@[i], d.fields@[i], memo1));
            assert(m.children()[i] == c.fields@[i]);
        }
    }
}

} // verus!
