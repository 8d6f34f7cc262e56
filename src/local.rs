use vstd::prelude::*;

use crate::error::Error;
use crate::value::{Value, TAG_INTEGER};

verus! {

/// `n` copies of the integer zero.
pub open spec fn zeros(n: nat) -> Seq<Value> {
    Seq::new(n, |i: int| Value::of_int(0))
}

/// The local slots of every active frame in one vector; the current frame starts at `base`.
pub struct Local {
    pub local: Vec<Value>,
    base: usize,
}

impl Local {
    pub closed spec fn values(&self) -> Seq<Value> {
        self.local@
    }

    pub closed spec fn base_spec(&self) -> nat {
        self.base as nat
    }

    pub open spec fn wf(&self) -> bool {
        self.base_spec() <= self.values().len()
    }

    /// The slots of the current frame.
    pub open spec fn frame(&self) -> Seq<Value> {
        self.values().subrange(self.base_spec() as int, self.values().len() as int)
    }

    /// One frame of `capacity` slots, each the integer zero.
    pub fn new(capacity: usize) -> (r: Local)
        ensures
            r.values() == zeros(capacity as nat),
            r.base_spec() == 0,
            r.wf(),
    {
        let mut v: Vec<Value> = Vec::new();
        let mut i: usize = 0;
        while i < capacity
            invariant
                i <= capacity,
                v@ == zeros(i as nat),
            decreases capacity - i,
        {
            v.push(Value::mk_integer(0));
            i = i + 1;
            proof {
                assert(v@ =~= zeros(i as nat));
            }
        }
        Local { local: v, base: 0 }
    }

    pub fn len(&self) -> (r: usize)
        ensures
            r == self.values().len(),
    {
        self.local.len()
    }

    pub fn base(&self) -> (r: usize)
        ensures
            r == self.base_spec(),
    {
        self.base
    }

    /// The slots of every frame, from the oldest.
    pub fn slots(&self) -> (r: &Vec<Value>)
        ensures
            r@ == self.values(),
    {
        &self.local
    }

    /// Opens a frame of `size` slots after the current ones; returns the base it replaces.
    pub fn push_frame(&mut self, size: usize) -> (r: usize)
        requires
            old(self).wf(),
            old(self).values().len() + size <= usize::MAX,
        ensures
            r == old(self).base_spec(),
            final(self).base_spec() == old(self).values().len(),
            final(self).values() == old(self).values() + zeros(size as nat),
            final(self).wf(),
    {
        let new_base = self.local.len();
        let old_base = self.base;
        self.base = new_base;
        let mut i: usize = 0;
        while i < size
            invariant
                i <= size,
                self.base == new_base,
                new_base == old(self).values().len(),
                new_base + size <= usize::MAX,
                self.local@ == old(self).values() + zeros(i as nat),
            decreases size - i,
        {
            self.local.push(Value::mk_integer(0));
            i = i + 1;
            proof {
                assert(self.local@ =~= old(self).values() + zeros(i as nat));
            }
        }
        old_base
    }

    /// Closes the current frame and makes `base` the current base again.
    pub fn pop_frame(&mut self, base: usize)
        requires
            old(self).wf(),
            base <= old(self).base_spec(),
        ensures
            final(self).values() == old(self).values().subrange(0, old(self).base_spec() as int),
            final(self).base_spec() == base,
            final(self).wf(),
    {
        self.local.truncate(self.base);
        self.base = base;
    }

    /// Empties every frame.
    pub fn clear(&mut self)
        ensures
            final(self).values() == Seq::<Value>::empty(),
            final(self).base_spec() == 0,
            final(self).wf(),
    {
        self.local.clear();
        self.base = 0;
    }

    pub open spec fn in_frame(&self, index: int) -> bool {
        0 <= index && self.base_spec() + index < self.values().len()
    }

    pub fn has_slot(&self, index: usize) -> (r: bool)
        requires
            self.wf(),
        ensures
            r == self.in_frame(index as int),
    {
        index < self.local.len() - self.base
    }

    /// The slot `index` of the current frame.
    pub fn load(&self, index: usize) -> (r: Value)
        requires
            self.in_frame(index as int),
        ensures
            r == self.values()[self.base_spec() + index],
    {
        let _n = self.local.len();
        self.local[self.base + index]
    }

    pub fn store(&mut self, index: usize, value: Value)
        requires
            old(self).in_frame(index as int),
        ensures
            final(self).values() == old(self).values().update(
                old(self).base_spec() + index,
                value,
            ),
            final(self).base_spec() == old(self).base_spec(),
    {
        let _n = self.local.len();
        let i = self.base + index;
        self.local.set(i, value);
    }

    /// Adds `delta` to the integer in slot `index`, wrapping; fails where the slot holds no integer.
    pub fn iinc(&mut self, index: usize, delta: i32) -> (r: Result<(), Error>)
        requires
            old(self).in_frame(index as int),
        ensures
            final(self).base_spec() == old(self).base_spec(),
            ({
                let v = old(self).values()[old(self).base_spec() + index];
                if v.is_int() {
                    r == Ok::<(), Error>(()) && final(self).values() == old(self).values().update(
                        old(self).base_spec() + index,
                        Value::of_int(
                            vstd::wrapping::i32_specs::wrapping_add(v.spec_integer(), delta),
                        ),
                    )
                } else {
                    r == Err::<(), Error>(Error::TypeMismatch) && final(self).values() == old(self).values()
                }
            }),
    {
        let _n = self.local.len();
        let i = self.base + index;
        let v = self.local[i];
        if v.tag() != TAG_INTEGER {
            return Err(Error::TypeMismatch);
        }
        self.local.set(i, Value::mk_integer(v.integer().wrapping_add(delta)));
        Ok(())
    }
}

} // verus!
