use vstd::prelude::*;

use crate::heap::{MutObject, MutableHeap};
use crate::value::Value;

verus! {

/// How many entries of `s` are present.
pub open spec fn count_some(s: Seq<Option<usize>>) -> nat
    decreases s.len(),
{
    if s.len() == 0 {
        0
    } else {
        count_some(s.drop_last()) + if s.last() is Some {
            1nat
        } else {
            0nat
        }
    }
}

/// At most every entry is present.
pub proof fn lemma_count_some_bound(s: Seq<Option<usize>>)
    ensures
        count_some(s) <= s.len(),
    decreases s.len(),
{
    if s.len() > 0 {
        lemma_count_some_bound(s.drop_last());
    }
}

/// Filling an absent entry adds one to the count.
pub proof fn lemma_count_some_fill(s: Seq<Option<usize>>, i: int, x: usize)
    requires
        0 <= i < s.len(),
        s[i] is None,
    ensures
        count_some(s.update(i, Some(x))) == count_some(s) + 1,
    decreases s.len(),
{
    let t = s.update(i, Some(x));
    if i == s.len() - 1 {
        assert(t.drop_last() =~= s.drop_last());
    } else {
        assert(t.drop_last() =~= s.drop_last().update(i, Some(x)));
        lemma_count_some_fill(s.drop_last(), i, x);
    }
}

/// `p` is a chain of mutable objects, none of them `known`, each one a child
/// of the one before.
pub open spec fn is_path(heap: Seq<MutObject>, known: Seq<Option<usize>>, p: Seq<usize>) -> bool {
    &&& p.len() >= 1
    &&& forall|k: int| 0 <= k < p.len() ==> #[trigger] p[k] < heap.len() && known[p[k] as int] is None
    &&& forall|k: int|
        0 <= k < p.len() - 1 ==> heap[#[trigger] p[k] as int].children().contains(Value::Mutable(p[k + 1]))
}

/// The mutable object at `b` is reached from one of `roots` by a chain of
/// objects that are not `known`.
pub open spec fn reaches(heap: Seq<MutObject>, known: Seq<Option<usize>>, roots: Seq<Value>, b: int) -> bool {
    exists|p: Seq<usize>, r: int|
        #![trigger is_path(heap, known, p), roots[r]]
        0 <= r < roots.len() && is_path(heap, known, p) && roots[r] == Value::Mutable(p[0]) && p.last() == b
}

/// Every mutable child of object `a` that is not `known` has been reached.
pub open spec fn children_reached(
    heap: Seq<MutObject>,
    known: Seq<Option<usize>>,
    index: Seq<Option<usize>>,
    a: int,
) -> bool {
    forall|j: int|
        0 <= j < heap[a].children().len() ==> (#[trigger] heap[a].children()[j] matches Value::Mutable(
            b,
        ) ==> (known[b as int] is None ==> index[b as int] is Some))
}

/// `order` lists distinct addresses, none of them `known`, and `index` is
/// its inverse: `index[a]` is the position of `a` in `order`, if any.
pub open spec fn is_listing(
    heap: Seq<MutObject>,
    known: Seq<Option<usize>>,
    order: Seq<usize>,
    index: Seq<Option<usize>>,
) -> bool {
    &&& index.len() == heap.len()
    &&& order.len() <= heap.len()
    &&& forall|k: int|
        0 <= k < order.len() ==> {
            &&& #[trigger] order[k] < heap.len()
            &&& known[order[k] as int] is None
            &&& index[order[k] as int] == Some(k as usize)
        }
    &&& forall|a: int|
        0 <= a < heap.len() && (#[trigger] index[a]) is Some ==> {
            &&& index[a]->0 < order.len()
            &&& order[index[a]->0 as int] == a
        }
}

/// Each root that names a mutable object which is not `known` has been reached.
pub open spec fn roots_reached(
    roots: Seq<Value>,
    known: Seq<Option<usize>>,
    index: Seq<Option<usize>>,
) -> bool {
    forall|r: int|
        0 <= r < roots.len() ==> (#[trigger] roots[r] matches Value::Mutable(a) ==> (known[a as int] is None
            ==> index[a as int] is Some))
}

/// Lists the mutable objects reachable from `roots` without passing through
/// an object marked in `known`. The result is closed: every mutable child of
/// a listed object is listed or known.
pub(crate) fn collect(
    heap: &MutableHeap,
    flen: Ghost<int>,
    known: &Vec<Option<usize>>,
    roots: &Vec<Value>,
) -> (r: (Vec<usize>, Vec<Option<usize>>))
    requires
        heap.wf(flen@),
        known@.len() == heap@.len(),
        forall|i: int| 0 <= i < roots@.len() ==> (#[trigger] roots@[i]).valid_in(heap@.len() as int, flen@),
    ensures
        is_listing(heap@, known@, r.0@, r.1@),
        roots_reached(roots@, known@, r.1@),
        forall|a: int|
            0 <= a < heap@.len() && (#[trigger] r.1@[a]) is Some ==> children_reached(heap@, known@, r.1@, a),
        forall|a: int| 0 <= a < heap@.len() ==> ((#[trigger] r.1@[a]) is Some <==> reaches(heap@, known@, roots@, a)),
{
    let n = heap.len();
    let mut order: Vec<usize> = Vec::new();
    let mut index: Vec<Option<usize>> = vec![None; n];
    proof {
        assert(count_some(index@) == 0) by {
            lemma_count_some_none(index@);
        }
    }
    let mut r: usize = 0;
    while r < roots.len()
        invariant
            n == heap@.len(),
            heap.wf(flen@),
            known@.len() == n,
            forall|i: int| 0 <= i < roots@.len() ==> (#[trigger] roots@[i]).valid_in(n as int, flen@),
            r <= roots@.len(),
            is_listing(heap@, known@, order@, index@),
            count_some(index@) == order@.len(),
            roots_reached(roots@.take(r as int), known@, index@),
            forall|k: int| 0 <= k < order@.len() ==> reaches(heap@, known@, roots@, #[trigger] order@[k] as int),
        decreases roots@.len() - r,
    {
        let v = roots[r];
        match v {
            Value::Mutable(a) => {
                if known[a].is_none() && index[a].is_none() {
                    proof {
                        lemma_count_some_fill(index@, a as int, order@.len() as usize);
                        lemma_count_some_bound(index@.update(a as int, Some(order@.len() as usize)));
                        let p = seq![a];
                        assert(is_path(heap@, known@, p));
                        assert(roots@[r as int] == Value::Mutable(p[0]));
                    }
                    index.set(a, Some(order.len()));
                    order.push(a);
                }
            },
            _ => {},
        }
        assert(roots@.take(r + 1) =~= roots@.take(r as int).push(v));
        r += 1;
    }
    assert(roots@.take(roots@.len() as int) =~= roots@);
    let mut i: usize = 0;
    while i < order.len()
        invariant
            n == heap@.len(),
            heap.wf(flen@),
            known@.len() == n,
            i <= order@.len(),
            is_listing(heap@, known@, order@, index@),
            count_some(index@) == order@.len(),
            roots_reached(roots@, known@, index@),
            forall|i: int| 0 <= i < roots@.len() ==> (#[trigger] roots@[i]).valid_in(n as int, flen@),
            forall|k: int| 0 <= k < i ==> children_reached(heap@, known@, index@, #[trigger] order@[k] as int),
            forall|k: int| 0 <= k < order@.len() ==> reaches(heap@, known@, roots@, #[trigger] order@[k] as int),
        decreases n - i,
    {
        let a = order[i];
        let obj = heap.get(a);
        let m = obj.child_count();
        let mut j: usize = 0;
        while j < m
            invariant
                n == heap@.len(),
                heap.wf(flen@),
                known@.len() == n,
                a < n,
                *obj == heap@[a as int],
                m == obj.children().len(),
                j <= m,
                i < order@.len(),
                order@[i as int] == a,
                is_listing(heap@, known@, order@, index@),
                count_some(index@) == order@.len(),
                roots_reached(roots@, known@, index@),
                forall|i: int| 0 <= i < roots@.len() ==> (#[trigger] roots@[i]).valid_in(n as int, flen@),
                forall|k: int| 0 <= k < i ==> children_reached(heap@, known@, index@, #[trigger] order@[k] as int),
                forall|k: int| 0 <= k < order@.len() ==> reaches(heap@, known@, roots@, #[trigger] order@[k] as int),
                forall|jj: int|
                    0 <= jj < j ==> (#[trigger] obj.children()[jj] matches Value::Mutable(b) ==> (known@[b as int] is None
                        ==> index@[b as int] is Some)),
            decreases m - j,
        {
            let c = obj.child(j);
            let ghost before = index@;
            assert(heap@[a as int].refs_valid(n as int, flen@));
            assert(obj.children()[j as int].valid_in(n as int, flen@));
            match c {
                Value::Mutable(b) => {
                    if known[b].is_none() && index[b].is_none() {
                        proof {
                            lemma_count_some_fill(index@, b as int, order@.len() as usize);
                            lemma_count_some_bound(index@.update(b as int, Some(order@.len() as usize)));
                            assert(reaches(heap@, known@, roots@, order@[i as int] as int));
                            let (p, rr) = choose|p: Seq<usize>, rr: int|
                                0 <= rr < roots@.len() && is_path(heap@, known@, p) && roots@[rr] == Value::Mutable(p[0])
                                    && p.last() == a;
                            let q = p.push(b);
                            assert(heap@[a as int].children()[j as int] == Value::Mutable(b));
                            assert(heap@[q[p.len() - 1] as int].children().contains(Value::Mutable(q[p.len() as int])));
                            assert(is_path(heap@, known@, q)) by {
                                assert forall|k: int| 0 <= k < q.len() - 1 implies heap@[#[trigger] q[k] as int].children().contains(Value::Mutable(q[k + 1])) by {
                                    if k < p.len() - 1 {
                                        assert(q[k] == p[k] && q[k + 1] == p[k + 1]);
                                    }
                                }
                            }
                            assert(roots@[rr] == Value::Mutable(q[0]));
                        }
                        index.set(b, Some(order.len()));
                        order.push(b);
                    }
                },
                _ => {},
            }
            assert(forall|x: int| 0 <= x < n && (#[trigger] before[x]) is Some ==> index@[x] is Some);
            assert forall|rr: int| 0 <= rr < roots@.len() implies (#[trigger] roots@[rr] matches Value::Mutable(x)
                ==> (known@[x as int] is None ==> index@[x as int] is Some)) by {
                if let Value::Mutable(x) = roots@[rr] {
                    if known@[x as int] is None {
                        assert(before[x as int] is Some);
                    }
                }
            }
            j += 1;
        }
        assert(children_reached(heap@, known@, index@, a as int));
        i += 1;
    }
    proof {
        assert forall|a: int| 0 <= a < heap@.len() && (#[trigger] index@[a]) is Some implies children_reached(
            heap@,
            known@,
            index@,
            a,
        ) by {
            let k = index@[a]->0 as int;
            assert(order@[k] == a);
        }
        assert forall|b: int| 0 <= b < heap@.len() implies ((#[trigger] index@[b]) is Some <==> reaches(heap@, known@, roots@, b)) by {
            if index@[b] is Some {
                let k = index@[b]->0 as int;
                assert(order@[k] == b);
            }
            if reaches(heap@, known@, roots@, b) {
                let (p, rr) = choose|p: Seq<usize>, rr: int|
                    0 <= rr < roots@.len() && is_path(heap@, known@, p) && roots@[rr] == Value::Mutable(p[0]) && p.last() == b;
                lemma_path_listed(heap@, known@, index@, roots@, p, rr, p.len() - 1);
            }
        }
    }
    (order, index)
}

/// A set of addresses that holds the roots and is closed under children
/// holds every chain that starts at a root.
proof fn lemma_path_listed(
    heap: Seq<MutObject>,
    known: Seq<Option<usize>>,
    index: Seq<Option<usize>>,
    roots: Seq<Value>,
    p: Seq<usize>,
    r: int,
    k: int,
)
    requires
        index.len() == heap.len(),
        roots_reached(roots, known, index),
        forall|a: int| 0 <= a < heap.len() && (#[trigger] index[a]) is Some ==> children_reached(heap, known, index, a),
        0 <= r < roots.len(),
        is_path(heap, known, p),
        roots[r] == Value::Mutable(p[0]),
        0 <= k < p.len(),
    ensures
        index[p[k] as int] is Some,
    decreases k,
{
    assert(p[k] < heap.len());
    if k > 0 {
        lemma_path_listed(heap, known, index, roots, p, r, k - 1);
        assert(p[k - 1] < heap.len());
        assert(heap[p[k - 1] as int].children().contains(Value::Mutable(p[k])));
        let j = choose|j: int| 0 <= j < heap[p[k - 1] as int].children().len() && #[trigger] heap[p[k - 1] as int].children()[j] == Value::Mutable(p[k]);
        assert(children_reached(heap, known, index, p[k - 1] as int));
        assert(heap[p[k - 1] as int].children()[j] matches Value::Mutable(b) ==> (known[b as int] is None ==> index[b as int] is Some));
    } else {
        assert(p[0] < heap.len());
        assert(known[p[0] as int] is None);
    }
}

/// Nothing present counts zero.
pub proof fn lemma_count_some_none(s: Seq<Option<usize>>)
    requires
        forall|i: int| 0 <= i < s.len() ==> s[i] is None,
    ensures
        count_some(s) == 0,
    decreases s.len(),
{
    if s.len() > 0 {
        lemma_count_some_none(s.drop_last());
    }
}

} // verus!
