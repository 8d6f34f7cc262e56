use vstd::prelude::*;

use crate::function::Function;
use super::{Module, ModuleBuilder};

verus! {
/// The built-in module `std:out`: `println`, `print`, `debug` and `eprintln`, each of one argument.
pub fn module() -> (r: Module)
    ensures
        r.name@ == "std:out"@,
        r@.functions.len() == 4,
{
    let r = ModuleBuilder::new()
        .with_name("std:out")
        .with_function(Function::native("println", 1))
        .with_function(Function::native("print", 1))
        .with_function(Function::native("debug", 1))
        .with_function(Function::native("eprintln", 1))
        .build();
    proof {
        reveal_strlit("std:out");
    }
    r
}

} // verus!
