use vstd::prelude::*;

use crate::class::Class;
use crate::module::Module;

verus! {

#[verifier::external_type_specification]
#[verifier::external_body]
#[verifier::reject_recursive_types(T)]
pub struct ExArena<T>(typed_arena::Arena<T>);

/// Relies on `typed_arena::Arena::new`: an arena with nothing in it.
#[verifier::external_body]
fn new_arena<T>() -> typed_arena::Arena<T> {
    typed_arena::Arena::new()
}

/// Relies on `typed_arena::Arena::alloc`: the value moves into the arena, which hands back a
/// reference to it that lives as long as the arena.
#[verifier::external_body]
fn arena_alloc<'a, T>(arena: &'a typed_arena::Arena<T>, value: T) -> (r: &'a T)
    ensures
        *r == value,
{
    arena.alloc(value)
}

/// Owns the modules and classes of a program for as long as it runs.
pub struct LoaderArena {
    modules: typed_arena::Arena<Module>,
    classes: typed_arena::Arena<Class>,
}

impl LoaderArena {
    pub fn new() -> (r: LoaderArena) {
        LoaderArena { modules: new_arena(), classes: new_arena() }
    }

    /// Moves `m` into the arena.
    pub fn alloc_module<'a>(&'a self, m: Module) -> (r: &'a Module)
        ensures
            *r == m,
    {
        arena_alloc(&self.modules, m)
    }

    /// Moves `c` into the arena.
    pub fn alloc_class<'a>(&'a self, c: Class) -> (r: &'a Class)
        ensures
            *r == c,
    {
        arena_alloc(&self.classes, c)
    }
}

} // verus!
