use vstd::prelude::*;

use crate::complex::{backs_family, dyn_type, type_of, DynType};
use crate::frozen::FrozenHeap;
use crate::heap::MutableHeap;
use crate::text::{decimal, int_to_string};
use crate::value::{Immediate, Value};

verus! {

/// A static type, as written in a type annotation or inferred for an
/// expression. Both forms of a complex family have one type.
#[derive(Clone, Copy, Debug, PartialEq, Eq, Structural)]
pub enum Ty {
    NoneType,
    Bool,
    Int,
    Str,
    List,
    Complex(u64),
}

/// The static type of a value of dynamic type `d`.
pub open spec fn ty_of(d: DynType) -> Ty {
    match d {
        DynType::NoneType => Ty::NoneType,
        DynType::Bool => Ty::Bool,
        DynType::Int => Ty::Int,
        DynType::Str => Ty::Str,
        DynType::Complex(f) => Ty::Complex(f),
        DynType::FrozenComplex(f) => Ty::Complex(f),
    }
}

/// The name under which a type is shown.
pub open spec fn ty_name(t: Ty) -> Seq<char> {
    match t {
        Ty::NoneType => "NoneType"@,
        Ty::Bool => "bool"@,
        Ty::Int => "int"@,
        Ty::Str => "string"@,
        Ty::List => "list"@,
        Ty::Complex(_) => "complex"@,
    }
}

/// How a value of static type `t` is shown in a message.
pub open spec fn value_text(v: Value, t: Ty) -> Seq<char> {
    match v {
        Value::Imm(Immediate::NoneValue) => "None"@,
        Value::Imm(Immediate::Bool(b)) => if b {
            "True"@
        } else {
            "False"@
        },
        Value::Imm(Immediate::Int(n)) => decimal(n as int),
        _ => "<"@ + ty_name(t) + ">"@,
    }
}

fn ty_name_string(t: Ty) -> (r: String)
    ensures
        r@ == ty_name(t),
{
    match t {
        Ty::NoneType => "NoneType".to_owned(),
        Ty::Bool => "bool".to_owned(),
        Ty::Int => "int".to_owned(),
        Ty::Str => "string".to_owned(),
        Ty::List => "list".to_owned(),
        Ty::Complex(_) => "complex".to_owned(),
    }
}

fn value_text_string(v: Value, t: Ty) -> (r: String)
    ensures
        r@ == value_text(v, t),
{
    match v {
        Value::Imm(Immediate::NoneValue) => "None".to_owned(),
        Value::Imm(Immediate::Bool(b)) => if b {
            "True".to_owned()
        } else {
            "False".to_owned()
        },
        Value::Imm(Immediate::Int(n)) => int_to_string(n),
        _ => {
            let mut s = "<".to_owned();
            let name = ty_name_string(t);
            s.append(name.as_str());
            s.append(">");
            s
        },
    }
}

/// Why a value or an expression does not fit a type annotation.
#[derive(Debug)]
pub enum TypeError {
    /// Found before running: the expression's static type is not the one expected.
    Expected { expected: String, got: Ty },
    /// Found while running: the value's type is not the one expected.
    ValueMismatch { value: Value, got: Ty, expected: String },
}

/// The text of a type error.
pub open spec fn message_of(e: TypeError) -> Seq<char> {
    match e {
        TypeError::Expected { expected, got } => "Expected type `"@ + expected@ + "` but got `"@ + ty_name(got)
            + "`"@,
        TypeError::ValueMismatch { value, got, expected } => "Value `"@ + value_text(value, got) + "` of type `"@
            + ty_name(got) + "` does not match the type annotation `"@ + expected@ + "`"@,
    }
}

impl TypeError {
    /// The error as text.
    pub fn message(&self) -> (r: String)
        ensures
            r@ == message_of(*self),
    {
        match self {
            TypeError::Expected { expected, got } => {
                let mut s = "Expected type `".to_owned();
                s.append(expected.as_str());
                s.append("` but got `");
                let name = ty_name_string(*got);
                s.append(name.as_str());
                s.append("`");
                s
            },
            TypeError::ValueMismatch { value, got, expected } => {
                let mut s = "Value `".to_owned();
                let text = value_text_string(*value, *got);
                s.append(text.as_str());
                s.append("` of type `");
                let name = ty_name_string(*got);
                s.append(name.as_str());
                s.append("` does not match the type annotation `");
                s.append(expected.as_str());
                s.append("`");
                s
            },
        }
    }
}

/// A complex type family offered as a value that type annotations can name,
/// with or without documentation.
#[derive(Debug)]
pub struct StarlarkValueAsType {
    family: u64,
    name: String,
    documented: bool,
}

impl StarlarkValueAsType {
    pub closed spec fn family(&self) -> u64 {
        self.family
    }

    pub closed spec fn name(&self) -> Seq<char> {
        self.name@
    }

    pub closed spec fn documented(&self) -> bool {
        self.documented
    }

    /// The type of `family`, shown as `name`, with its documentation.
    pub fn new(family: u64, name: String) -> (r: StarlarkValueAsType)
        ensures
            r.family() == family,
            r.name() == name@,
            r.documented(),
    {
        StarlarkValueAsType { family, name, documented: true }
    }

    /// The type of `family`, shown as `name`, without documentation.
    pub fn new_no_docs(family: u64, name: String) -> (r: StarlarkValueAsType)
        ensures
            r.family() == family,
            r.name() == name@,
            !r.documented(),
    {
        StarlarkValueAsType { family, name, documented: false }
    }

    /// The type that an annotation naming this value stands for.
    pub fn eval_type(&self) -> (r: Ty)
        ensures
            r == Ty::Complex(self.family()),
    {
        Ty::Complex(self.family)
    }

    /// The type documented by this value, if it carries documentation.
    pub fn documentation(&self) -> (r: Option<Ty>)
        ensures
            r == (if self.documented() {
                Some(Ty::Complex(self.family()))
            } else {
                None
            }),
    {
        if self.documented {
            Some(Ty::Complex(self.family))
        } else {
            None
        }
    }

    /// The name under which the type is shown.
    pub fn shown_name(&self) -> (r: String)
        ensures
            r@ == self.name(),
    {
        self.name.clone()
    }

    /// Checks, before running, an expression of static type `got` against
    /// this annotation.
    pub fn check_type(&self, got: Ty) -> (r: Result<(), TypeError>)
        ensures
            r is Ok <==> got == Ty::Complex(self.family()),
            r matches Err(e) ==> e matches TypeError::Expected { expected, got: g } && expected@ == self.name()
                && g == got,
    {
        if got == Ty::Complex(self.family) {
            Ok(())
        } else {
            Err(TypeError::Expected { expected: self.name.clone(), got })
        }
    }

    /// Checks, while running, the value `v` against this annotation: it fits
    /// when either form of the family backs it.
    pub fn check_value(&self, v: Value, heap: &MutableHeap, frozen: &FrozenHeap) -> (r: Result<(), TypeError>)
        requires
            v.valid_in(heap@.len() as int, frozen@.len() as int),
        ensures
            r is Ok <==> backs_family(v, self.family(), heap@, frozen@),
            r matches Err(e) ==> e matches TypeError::ValueMismatch { value, got, expected } && value == v
                && got == ty_of(type_of(v, heap@, frozen@)) && expected@ == self.name(),
    {
        let d = dyn_type(v, heap, frozen);
        let got = match d {
            DynType::NoneType => Ty::NoneType,
            DynType::Bool => Ty::Bool,
            DynType::Int => Ty::Int,
            DynType::Str => Ty::Str,
            DynType::Complex(f) => Ty::Complex(f),
            DynType::FrozenComplex(f) => Ty::Complex(f),
        };
        if got == Ty::Complex(self.family) {
            Ok(())
        } else {
            Err(TypeError::ValueMismatch { value: v, got, expected: self.name.clone() })
        }
    }
}

} // verus!
