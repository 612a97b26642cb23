use vstd::prelude::*;

use crate::value::Value;

verus! {

/// The value bound to `name` in `b`: the latest binding wins.
pub open spec fn lookup(b: Seq<(Seq<char>, Value)>, name: Seq<char>) -> Option<Value>
    decreases b.len(),
{
    if b.len() == 0 {
        None
    } else if b.last().0 == name {
        Some(b.last().1)
    } else {
        lookup(b.drop_last(), name)
    }
}

/// The global bindings of one evaluation scope, in the order they were made.
#[derive(Debug)]
pub struct Module {
    names: Vec<String>,
    values: Vec<Value>,
}

impl Module {
    pub closed spec fn bindings(&self) -> Seq<(Seq<char>, Value)> {
        Seq::new(self.names@.len(), |i: int| (self.names@[i]@, self.values@[i]))
    }

    pub closed spec fn wf(&self) -> bool {
        self.names@.len() == self.values@.len()
    }

    /// The value bound to `name`, if any.
    pub open spec fn lookup(&self, name: Seq<char>) -> Option<Value> {
        lookup(self.bindings(), name)
    }

    pub fn new() -> (r: Module)
        ensures
            r.wf(),
            forall|name: Seq<char>| #[trigger] r.lookup(name) is None,
    {
        let r = Module { names: Vec::new(), values: Vec::new() };
        assert(r.bindings() =~= Seq::<(Seq<char>, Value)>::empty());
        r
    }

    /// Binds `name` to `v`; other names keep their values.
    pub fn set(&mut self, name: String, v: Value)
        requires
            old(self).wf(),
        ensures
            final(self).wf(),
            final(self).lookup(name@) == Some(v),
            forall|other: Seq<char>| other != name@ ==> #[trigger] final(self).lookup(other) == old(self).lookup(other),
    {
        let ghost n = name@;
        let ghost before = self.bindings();
        self.names.push(name);
        self.values.push(v);
        assert(self.bindings().drop_last() =~= before);
        assert(self.bindings().last() == (n, v));
    }

    /// The value bound to `name`, if any.
    pub fn get(&self, name: &String) -> (r: Option<Value>)
        requires
            self.wf(),
        ensures
            r == self.lookup(name@),
    {
        let mut i: usize = self.names.len();
        assert(self.bindings().take(i as int) =~= self.bindings());
        while i > 0
            invariant
                self.wf(),
                i <= self.names@.len(),
                lookup(self.bindings(), name@) == lookup(self.bindings().take(i as int), name@),
            decreases i,
        {
            let ghost b = self.bindings().take(i as int);
            assert(b.drop_last() =~= self.bindings().take(i - 1));
            if self.names[i - 1] == *name {
                return Some(self.values[i - 1]);
            }
            i -= 1;
        }
        assert(self.bindings().take(0) =~= Seq::<(Seq<char>, Value)>::empty());
        None
    }

    /// Every bound value, latest binding last: the root set that this scope
    /// hands to a collection pass or to a freeze.
    pub fn values(&self) -> (r: Vec<Value>)
        requires
            self.wf(),
        ensures
            r@.len() == self.bindings().len(),
            forall|i: int| 0 <= i < r@.len() ==> #[trigger] r@[i] == self.bindings()[i].1,
    {
        let mut r: Vec<Value> = Vec::new();
        let mut i: usize = 0;
        while i < self.values.len()
            invariant
                self.wf(),
                i <= self.values@.len(),
                r@.len() == i,
                forall|j: int| 0 <= j < i ==> #[trigger] r@[j] == self.values@[j],
            decreases self.values@.len() - i,
        {
            r.push(self.values[i]);
            i += 1;
        }
        r
    }
}

} // verus!
