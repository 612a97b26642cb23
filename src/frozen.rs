use vstd::prelude::*;

use crate::value::FrozenValue;

verus! {

/// The frozen form of a complex value: its type family and its fields, all
/// of them frozen handles.
#[derive(Debug)]
pub struct FrozenComplex {
    pub family: u64,
    pub fields: Vec<FrozenValue>,
}

/// An object owned by a frozen heap; it never changes once stored.
#[derive(Debug)]
pub enum FrozenObject {
    Str(String),
    Complex(FrozenComplex),
}

impl FrozenValue {
    /// `self` is `orig` with its frozen address moved up by `off`.
    pub open spec fn is_shift_of(self, orig: FrozenValue, off: int) -> bool {
        match orig {
            FrozenValue::Imm(i) => self == FrozenValue::Imm(i),
            FrozenValue::Frozen(a) => self matches FrozenValue::Frozen(b) && b == a + off,
        }
    }

    fn shift(self, off: usize) -> (r: FrozenValue)
        requires
            self matches FrozenValue::Frozen(a) ==> a + off <= usize::MAX,
        ensures
            r.is_shift_of(self, off as int),
    {
        match self {
            FrozenValue::Imm(i) => FrozenValue::Imm(i),
            FrozenValue::Frozen(a) => FrozenValue::Frozen(a + off),
        }
    }
}

impl FrozenObject {
    /// Every frozen handle inside the object names an address below `flen`.
    pub open spec fn refs_valid(&self, flen: int) -> bool {
        match self {
            FrozenObject::Str(_) => true,
            FrozenObject::Complex(c) => forall|i: int|
                0 <= i < c.fields@.len() ==> (#[trigger] c.fields@[i]).valid_in(flen),
        }
    }

    /// `self` holds what `orig` holds, with each frozen address moved up by `off`.
    pub open spec fn is_rebase_of(&self, orig: &FrozenObject, off: int) -> bool {
        match (self, orig) {
            (FrozenObject::Str(s), FrozenObject::Str(t)) => s@ == t@,
            (FrozenObject::Complex(c), FrozenObject::Complex(d)) => {
                &&& c.family == d.family
                &&& c.fields@.len() == d.fields@.len()
                &&& forall|i: int|
                    0 <= i < c.fields@.len() ==> (#[trigger] c.fields@[i]).is_shift_of(
                        d.fields@[i],
                        off,
                    )
            },
            _ => false,
        }
    }

    fn rebase(&self, off: usize, flen: Ghost<int>) -> (r: FrozenObject)
        requires
            self.refs_valid(flen@),
            flen@ + off <= usize::MAX,
        ensures
            r.is_rebase_of(self, off as int),
            r.refs_valid(flen@ + off),
    {
        match self {
            FrozenObject::Str(s) => FrozenObject::Str(s.clone()),
            FrozenObject::Complex(c) => {
                let mut fields: Vec<FrozenValue> = Vec::new();
                let mut i: usize = 0;
                while i < c.fields.len()
                    invariant
                        forall|j: int|
                            0 <= j < c.fields@.len() ==> (#[trigger] c.fields@[j]).valid_in(flen@),
                        flen@ + off <= usize::MAX,
                        i <= c.fields@.len(),
                        fields@.len() == i,
                        forall|j: int|
                            0 <= j < i ==> (#[trigger] fields@[j]).is_shift_of(c.fields@[j], off as int),
                        forall|j: int| 0 <= j < i ==> (#[trigger] fields@[j]).valid_in(flen@ + off),
                    decreases c.fields@.len() - i,
                {
                    fields.push(c.fields[i].shift(off));
                    i += 1;
                }
                FrozenObject::Complex(FrozenComplex { family: c.family, fields })
            },
        }
    }
}

/// An append-only heap of immutable objects. Addresses handed out stay valid
/// for as long as the heap lives: nothing is ever moved or removed.
#[derive(Debug)]
pub struct FrozenHeap {
    objects: Vec<FrozenObject>,
}

impl View for FrozenHeap {
    type V = Seq<FrozenObject>;

    closed spec fn view(&self) -> Seq<FrozenObject> {
        self.objects@
    }
}

impl FrozenHeap {
    /// Every handle stored in the heap names an object of the heap.
    pub open spec fn wf(&self) -> bool {
        forall|i: int| 0 <= i < self@.len() ==> (#[trigger] self@[i]).refs_valid(self@.len() as int)
    }

    pub fn new() -> (r: FrozenHeap)
        ensures
            r@ == Seq::<FrozenObject>::empty(),
            r.wf(),
    {
        FrozenHeap { objects: Vec::new() }
    }

    pub fn len(&self) -> (r: usize)
        ensures
            r == self@.len(),
    {
        self.objects.len()
    }

    pub fn get(&self, addr: usize) -> (r: &FrozenObject)
        requires
            addr < self@.len(),
        ensures
            *r == self@[addr as int],
    {
        &self.objects[addr]
    }

    /// Stores an object whose handles all point into this heap (or are
    /// immediates), and returns a handle to it.
    pub fn alloc_simple(&mut self, obj: FrozenObject) -> (r: FrozenValue)
        ensures
            final(self)@ == old(self)@.push(obj),
            r == FrozenValue::Frozen(old(self)@.len() as usize),
    {
        let a = self.objects.len();
        self.objects.push(obj);
        FrozenValue::Frozen(a)
    }

    /// Stores a complex value whose fields are frozen handles, and returns a
    /// handle to it. Such an object is never traced: all it points to is
    /// frozen already.
    pub fn alloc_complex(&mut self, d: FrozenComplex) -> (r: FrozenValue)
        ensures
            final(self)@ == old(self)@.push(FrozenObject::Complex(d)),
            r == FrozenValue::Frozen(old(self)@.len() as usize),
    {
        self.alloc_simple(FrozenObject::Complex(d))
    }

    /// Stores a string and returns a handle to it.
    pub fn alloc_str(&mut self, s: String) -> (r: FrozenValue)
        ensures
            final(self)@.len() == old(self)@.len() + 1,
            final(self)@.take(old(self)@.len() as int) == old(self)@,
            final(self)@.last() matches FrozenObject::Str(t) && t@ == s@,
            r == FrozenValue::Frozen(old(self)@.len() as usize),
    {
        let r = self.alloc_simple(FrozenObject::Str(s));
        assert(self@.take(old(self)@.len() as int) =~= old(self)@);
        r
    }

    /// Appends the objects of `other` after those of `self`. Objects already
    /// in `self` keep their addresses; the object at address `a` of `other`
    /// moves to `offset + a`, and its handles move with it.
    pub fn merge(&mut self, other: FrozenHeap) -> (offset: usize)
        requires
            old(self).wf(),
            other.wf(),
            old(self)@.len() + other@.len() <= usize::MAX,
        ensures
            offset == old(self)@.len(),
            final(self).wf(),
            final(self)@.len() == old(self)@.len() + other@.len(),
            forall|i: int| 0 <= i < old(self)@.len() ==> #[trigger] final(self)@[i] == old(self)@[i],
            forall|i: int|
                0 <= i < other@.len() ==> (#[trigger] final(self)@[offset + i]).is_rebase_of(
                    &other@[i],
                    offset as int,
                ),
    {
        let offset = self.objects.len();
        let n = other.objects.len();
        let mut i: usize = 0;
        while i < n
            invariant
                offset == old(self)@.len(),
                other.wf(),
                n == other@.len(),
                offset + n <= usize::MAX,
                i <= n,
                self@.len() == offset + i,
                forall|j: int| 0 <= j < offset ==> #[trigger] self@[j] == old(self)@[j],
                forall|j: int|
                    0 <= j < i ==> (#[trigger] self@[offset + j]).is_rebase_of(&other@[j], offset as int),
                forall|j: int| 0 <= j < self@.len() ==> (#[trigger] self@[j]).refs_valid(offset + n),
                old(self).wf(),
            decreases n - i,
        {
            let obj = other.objects[i].rebase(offset, Ghost(n as int));
            self.objects.push(obj);
            i += 1;
        }
        offset
    }
}

} // verus!
