use vstd::prelude::*;
use vstd::pervasive::unreached;

use crate::as_type::Ty;
use crate::freeze::{blocks_freeze, corresponds, freezes_to, heap_extends, memo_extends, FreezeError, Freezer};
use crate::reach::{count_some, reaches};
use crate::frozen::{FrozenComplex, FrozenHeap, FrozenObject};
use crate::heap::{ComplexValue, MutObject, MutableHeap};
use crate::value::{FrozenValue, Immediate, Value};

verus! {

/// The dynamic type of a value, as recorded with it.
#[derive(Clone, Copy, Debug, PartialEq, Eq, Structural)]
pub enum DynType {
    NoneType,
    Bool,
    Int,
    Str,
    /// The mutable form of a complex type family.
    Complex(u64),
    /// The frozen form of a complex type family.
    FrozenComplex(u64),
}

/// The dynamic type of `v`, looked up in the heaps that back it.
pub open spec fn type_of(v: Value, heap: Seq<MutObject>, frozen: Seq<FrozenObject>) -> DynType {
    match v {
        Value::Imm(Immediate::NoneValue) => DynType::NoneType,
        Value::Imm(Immediate::Bool(_)) => DynType::Bool,
        Value::Imm(Immediate::Int(_)) => DynType::Int,
        Value::Mutable(a) => match heap[a as int] {
            MutObject::Str(_) => DynType::Str,
            MutObject::Complex(c) => DynType::Complex(c.family),
        },
        Value::Frozen(a) => match frozen[a as int] {
            FrozenObject::Str(_) => DynType::Str,
            FrozenObject::Complex(d) => DynType::FrozenComplex(d.family),
        },
    }
}

/// `v` is backed by either form of the family `family`.
pub open spec fn backs_family(v: Value, family: u64, heap: Seq<MutObject>, frozen: Seq<FrozenObject>) -> bool {
    type_of(v, heap, frozen) == DynType::Complex(family) || type_of(v, heap, frozen) == DynType::FrozenComplex(
        family,
    )
}

/// Reads the dynamic type of `v`.
pub fn dyn_type(v: Value, heap: &MutableHeap, frozen: &FrozenHeap) -> (r: DynType)
    requires
        v.valid_in(heap@.len() as int, frozen@.len() as int),
    ensures
        r == type_of(v, heap@, frozen@),
{
    match v {
        Value::Imm(Immediate::NoneValue) => DynType::NoneType,
        Value::Imm(Immediate::Bool(_)) => DynType::Bool,
        Value::Imm(Immediate::Int(_)) => DynType::Int,
        Value::Mutable(a) => match heap.get(a) {
            MutObject::Str(_) => DynType::Str,
            MutObject::Complex(c) => DynType::Complex(c.family),
        },
        Value::Frozen(a) => match frozen.get(a) {
            FrozenObject::Str(_) => DynType::Str,
            FrozenObject::Complex(d) => DynType::FrozenComplex(d.family),
        },
    }
}

/// Which form of a complex value currently backs a handle.
#[derive(Debug)]
pub enum Unpacked<'a> {
    Mutable(&'a ComplexValue),
    Frozen(&'a FrozenComplex),
}

/// A handle checked, when it was made, to be backed by the mutable or the
/// frozen form of one complex type family.
#[derive(Clone, Copy, Debug)]
pub struct ValueTypedComplex {
    value: Value,
    family: u64,
}

impl ValueTypedComplex {
    pub closed spec fn value(self) -> Value {
        self.value
    }

    pub closed spec fn family(self) -> u64 {
        self.family
    }

    /// Checks that `value` is backed by either form of `family`; absent otherwise.
    pub fn new(value: Value, family: u64, heap: &MutableHeap, frozen: &FrozenHeap) -> (r: Option<ValueTypedComplex>)
        requires
            value.valid_in(heap@.len() as int, frozen@.len() as int),
        ensures
            r is Some <==> backs_family(value, family, heap@, frozen@),
            r matches Some(t) ==> t.value() == value && t.family() == family,
    {
        let t = dyn_type(value, heap, frozen);
        let ok = match t {
            DynType::Complex(f) => f == family,
            DynType::FrozenComplex(f) => f == family,
            _ => false,
        };
        if ok {
            Some(ValueTypedComplex { value, family })
        } else {
            None
        }
    }

    /// The handle back.
    pub fn to_value(self) -> (r: Value)
        ensures
            r == self.value(),
    {
        self.value
    }

    pub fn get_family(&self) -> (r: u64)
        ensures
            r == self.family(),
    {
        self.family
    }

    /// The form that backs the handle: the mutable one, which may still
    /// change, or the frozen one.
    pub fn unpack<'a>(&self, heap: &'a MutableHeap, frozen: &'a FrozenHeap) -> (r: Unpacked<'a>)
        requires
            self.value().valid_in(heap@.len() as int, frozen@.len() as int),
            backs_family(self.value(), self.family(), heap@, frozen@),
        ensures
            match r {
                Unpacked::Mutable(c) => self.value() matches Value::Mutable(a) && heap@[a as int] == MutObject::Complex(
                    *c,
                ) && c.family == self.family(),
                Unpacked::Frozen(d) => self.value() matches Value::Frozen(a) && frozen@[a as int]
                    == FrozenObject::Complex(*d) && d.family == self.family(),
            },
    {
        match self.value {
            Value::Mutable(a) => match heap.get(a) {
                MutObject::Complex(c) => Unpacked::Mutable(c),
                MutObject::Str(_) => unreached(),
            },
            Value::Frozen(a) => match frozen.get(a) {
                FrozenObject::Complex(d) => Unpacked::Frozen(d),
                FrozenObject::Str(_) => unreached(),
            },
            Value::Imm(_) => unreached(),
        }
    }

    /// Freezes the value behind the handle into `target`, as
    /// `Freezer::freeze` does, and returns a handle of the same family over
    /// the frozen counterpart of the value.
    ///
    /// A frozen handle comes back as it is, with nothing changed. The call
    /// fails exactly when an object reached through objects not frozen yet
    /// declares itself non-freezable, and then nothing changes either.
    pub fn freeze(self, freezer: &mut Freezer, heap: &MutableHeap, target: &mut FrozenHeap) -> (r: Result<
        ValueTypedComplex,
        FreezeError,
    >)
        requires
            old(freezer).wf(heap, old(target)),
            self.value().valid_in(heap@.len() as int, old(target)@.len() as int),
            backs_family(self.value(), self.family(), heap@, old(target)@),
            old(target)@.len() + (heap@.len() - count_some(old(freezer)@)) <= usize::MAX,
        ensures
            final(target)@.len() + count_some(old(freezer)@) == old(target)@.len() + count_some(final(freezer)@),
            r is Err <==> blocks_freeze(heap@, old(freezer)@, seq![self.value()]),
            match r {
                Ok(t) => {
                    &&& final(freezer).wf(heap, final(target))
                    &&& memo_extends(final(freezer)@, old(freezer)@)
                    &&& heap_extends(final(target)@, old(target)@)
                    &&& t.family() == self.family()
                    &&& t.value() matches Value::Frozen(f) && freezes_to(
                        self.value(),
                        FrozenValue::Frozen(f),
                        final(freezer)@,
                    )
                    &&& t.value().valid_in(heap@.len() as int, final(target)@.len() as int)
                    &&& type_of(t.value(), heap@, final(target)@) == DynType::FrozenComplex(self.family())
                },
                Err(FreezeError::NotFreezable(a)) => {
                    &&& final(freezer)@ == old(freezer)@
                    &&& final(target)@ == old(target)@
                    &&& a < heap@.len()
                    &&& old(freezer)@[a as int] is None
                    &&& reaches(heap@, old(freezer)@, seq![self.value()], a as int)
                    &&& !heap@[a as int].can_freeze()
                },
            },
            self.value() is Frozen ==> r == Ok::<ValueTypedComplex, FreezeError>(self) && final(target)@ == old(
                target)@ && final(freezer)@ == old(freezer)@,
            self.value() matches Value::Mutable(a) ==> (old(freezer)@[a as int] is Some ==> (final(target)@
                == old(target)@ && final(freezer)@ == old(freezer)@)),
    {
        match freezer.freeze(self.value, heap, target) {
            Ok(fv) => {
                let v = fv.to_value();
                proof {
                    match self.value {
                        Value::Mutable(a) => {
                            let f = final_address(freezer@, a);
                            assert(corresponds(heap@[a as int], target@[f as int], freezer@));
                        },
                        _ => {},
                    }
                }
                Ok(ValueTypedComplex { value: v, family: self.family })
            },
            Err(e) => Err(e),
        }
    }

    /// The type that the handle's family has in type annotations.
    pub fn ty(&self) -> (r: Ty)
        ensures
            r == Ty::Complex(self.family()),
    {
        Ty::Complex(self.family)
    }

    /// Follows the value through a collection pass that moved each kept
    /// mutable object from `a` to `forward[a]`.
    pub fn trace(&mut self, forward: &Vec<Option<usize>>)
        requires
            old(self).value() matches Value::Mutable(a) ==> a < forward@.len() && forward@[a as int] is Some,
        ensures
            crate::trace::relocates(old(self).value(), final(self).value(), forward@),
            final(self).family() == old(self).family(),
    {
        match self.value {
            Value::Mutable(a) => match forward[a] {
                Some(p) => {
                    self.value = Value::Mutable(p);
                },
                None => {},
            },
            _ => {},
        }
    }
}

/// The frozen address that `memo` gives to `a`.
pub open spec fn final_address(memo: Seq<Option<usize>>, a: usize) -> usize {
    memo[a as int]->0
}

} // verus!
