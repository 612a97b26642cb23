use vstd::prelude::*;

verus! {

/// A value held inline in a handle, with no heap allocation.
#[derive(Clone, Copy, Debug, PartialEq, Eq, Structural)]
pub enum Immediate {
    NoneValue,
    Bool(bool),
    Int(i64),
}

/// A handle to a runtime value: an inline immediate, an object of the mutable
/// heap (by address), or an object of the frozen heap (by address).
#[derive(Clone, Copy, Debug, PartialEq, Eq, Structural)]
pub enum Value {
    Imm(Immediate),
    Mutable(usize),
    Frozen(usize),
}

/// A handle that can only point into a frozen heap; it never names a mutable
/// object, so it may be kept after the mutable heap is gone.
#[derive(Clone, Copy, Debug, PartialEq, Eq, Structural)]
pub enum FrozenValue {
    Imm(Immediate),
    Frozen(usize),
}

impl Value {
    /// The handle names only objects that exist: mutable addresses below
    /// `mlen`, frozen addresses below `flen`.
    pub open spec fn valid_in(self, mlen: int, flen: int) -> bool {
        match self {
            Value::Imm(_) => true,
            Value::Mutable(a) => a < mlen,
            Value::Frozen(a) => a < flen,
        }
    }

    /// A handle from an immediate: tag only, no allocation.
    pub fn new_imm(i: Immediate) -> (r: Value)
        ensures
            r == Value::Imm(i),
    {
        Value::Imm(i)
    }

    /// The frozen view of this handle: present exactly when the handle does
    /// not point into a mutable heap.
    pub fn unpack_frozen(self) -> (r: Option<FrozenValue>)
        ensures
            r == (match self {
                Value::Imm(i) => Some(FrozenValue::Imm(i)),
                Value::Frozen(a) => Some(FrozenValue::Frozen(a)),
                Value::Mutable(_) => None::<FrozenValue>,
            }),
    {
        match self {
            Value::Imm(i) => Some(FrozenValue::Imm(i)),
            Value::Frozen(a) => Some(FrozenValue::Frozen(a)),
            Value::Mutable(_) => None,
        }
    }
}

impl FrozenValue {
    pub open spec fn valid_in(self, flen: int) -> bool {
        match self {
            FrozenValue::Imm(_) => true,
            FrozenValue::Frozen(a) => a < flen,
        }
    }

    /// The general handle that this frozen handle stands for.
    pub open spec fn lift(self) -> Value {
        match self {
            FrozenValue::Imm(i) => Value::Imm(i),
            FrozenValue::Frozen(a) => Value::Frozen(a),
        }
    }

    pub fn to_value(self) -> (r: Value)
        ensures
            r == self.lift(),
    {
        match self {
            FrozenValue::Imm(i) => Value::Imm(i),
            FrozenValue::Frozen(a) => Value::Frozen(a),
        }
    }
}

} // verus!
