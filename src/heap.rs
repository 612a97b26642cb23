use vstd::prelude::*;

use crate::value::Value;

verus! {

/// The mutable form of a complex value: its type family, its fields, and
/// whether it can be frozen in its current state (an object that holds a
/// resource bound to the evaluation cannot).
#[derive(Debug)]
pub struct ComplexValue {
    pub family: u64,
    pub fields: Vec<Value>,
    pub freezable: bool,
}

/// An object owned by a mutable heap.
#[derive(Debug)]
pub enum MutObject {
    Str(String),
    Complex(ComplexValue),
}

impl MutObject {
    /// The handles that the object owns, in field order.
    pub open spec fn children(&self) -> Seq<Value> {
        match self {
            MutObject::Str(_) => Seq::empty(),
            MutObject::Complex(c) => c.fields@,
        }
    }

    /// Every handle inside the object names an existing object.
    pub open spec fn refs_valid(&self, mlen: int, flen: int) -> bool {
        forall|i: int|
            0 <= i < self.children().len() ==> (#[trigger] self.children()[i]).valid_in(mlen, flen)
    }

    /// Whether the object accepts to be frozen in its current state.
    pub open spec fn can_freeze(&self) -> bool {
        match self {
            MutObject::Str(_) => true,
            MutObject::Complex(c) => c.freezable,
        }
    }

    /// The handles that the object owns.
    pub fn child_count(&self) -> (r: usize)
        ensures
            r == self.children().len(),
    {
        match self {
            MutObject::Str(_) => 0,
            MutObject::Complex(c) => c.fields.len(),
        }
    }

    pub fn child(&self, i: usize) -> (r: Value)
        requires
            i < self.children().len(),
        ensures
            r == self.children()[i as int],
    {
        match self {
            MutObject::Str(_) => Value::Imm(crate::value::Immediate::NoneValue),
            MutObject::Complex(c) => c.fields[i],
        }
    }

    pub fn is_freezable(&self) -> (r: bool)
        ensures
            r == self.can_freeze(),
    {
        match self {
            MutObject::Str(_) => true,
            MutObject::Complex(c) => c.freezable,
        }
    }
}

/// The arena of one evaluation unit. Allocation appends; only a collection
/// pass moves objects.
#[derive(Debug)]
pub struct MutableHeap {
    objects: Vec<MutObject>,
}

impl View for MutableHeap {
    type V = Seq<MutObject>;

    closed spec fn view(&self) -> Seq<MutObject> {
        self.objects@
    }
}

impl MutableHeap {
    /// Every handle stored in the heap names an existing object, given a
    /// frozen heap of `flen` objects beside it.
    pub open spec fn wf(&self, flen: int) -> bool {
        forall|i: int| 0 <= i < self@.len() ==> (#[trigger] self@[i]).refs_valid(self@.len() as int, flen)
    }

    pub fn new() -> (r: MutableHeap)
        ensures
            r@ == Seq::<MutObject>::empty(),
    {
        MutableHeap { objects: Vec::new() }
    }

    pub(crate) fn from_objects(objects: Vec<MutObject>) -> (r: MutableHeap)
        ensures
            r@ == objects@,
    {
        MutableHeap { objects }
    }

    pub fn len(&self) -> (r: usize)
        ensures
            r == self@.len(),
    {
        self.objects.len()
    }

    pub fn get(&self, addr: usize) -> (r: &MutObject)
        requires
            addr < self@.len(),
        ensures
            *r == self@[addr as int],
    {
        &self.objects[addr]
    }

    /// Stores an object and returns a handle to it. Objects already stored
    /// keep their addresses.
    pub fn allocate(&mut self, obj: MutObject) -> (r: Value)
        ensures
            final(self)@ == old(self)@.push(obj),
            r == Value::Mutable(old(self)@.len() as usize),
    {
        let a = self.objects.len();
        self.objects.push(obj);
        Value::Mutable(a)
    }

    /// Stores a string and returns a handle to it.
    pub fn alloc_str(&mut self, s: String) -> (r: Value)
        ensures
            final(self)@.len() == old(self)@.len() + 1,
            forall|i: int| 0 <= i < old(self)@.len() ==> #[trigger] final(self)@[i] == old(self)@[i],
            final(self)@.last() matches MutObject::Str(t) && t@ == s@,
            r == Value::Mutable(old(self)@.len() as usize),
    {
        self.allocate(MutObject::Str(s))
    }

    /// Stores a complex value and returns a handle to it.
    pub fn alloc_complex(&mut self, c: ComplexValue) -> (r: Value)
        ensures
            final(self)@ == old(self)@.push(MutObject::Complex(c)),
            r == Value::Mutable(old(self)@.len() as usize),
    {
        self.allocate(MutObject::Complex(c))
    }

    /// Replaces field `i` of the complex value at `addr` by `v`.
    pub fn set_field(&mut self, addr: usize, i: usize, v: Value)
        requires
            addr < old(self)@.len(),
            old(self)@[addr as int] is Complex,
            i < old(self)@[addr as int].children().len(),
        ensures
            final(self)@.len() == old(self)@.len(),
            forall|j: int|
                0 <= j < old(self)@.len() && j != addr ==> #[trigger] final(self)@[j] == old(self)@[j],
            final(self)@[addr as int] matches MutObject::Complex(c) && old(self)@[addr as int] matches MutObject::Complex(d)
                && c.family == d.family && c.freezable == d.freezable && c.fields@ == d.fields@.update(i as int, v),
    {
        let obj = match &self.objects[addr] {
            MutObject::Complex(d) => {
                let mut fields: Vec<Value> = Vec::new();
                let mut j: usize = 0;
                while j < d.fields.len()
                    invariant
                        j <= d.fields@.len(),
                        i < d.fields@.len(),
                        fields@.len() == j,
                        forall|k: int|
                            0 <= k < j ==> #[trigger] fields@[k] == (if k == i { v } else { d.fields@[k] }),
                    decreases d.fields@.len() - j,
                {
                    if j == i {
                        fields.push(v);
                    } else {
                        fields.push(d.fields[j]);
                    }
                    j += 1;
                }
                assert(fields@ =~= d.fields@.update(i as int, v));
                MutObject::Complex(ComplexValue { family: d.family, fields, freezable: d.freezable })
            },
            MutObject::Str(s) => MutObject::Str(s.clone()),
        };
        self.objects.set(addr, obj);
    }
}

} // verus!
