use vstd::prelude::*;

use crate::function::Function;
use super::{Module, ModuleBuilder};

verus! {
/// The built-in module `file`: `read_to_string` and `read_to_bytes`, each of one argument.
pub fn module() -> (r: Module)
    ensures
        r.name@ == "file"@,
        r@.functions.len() == 2,
{
    let r = ModuleBuilder::new()
        .with_name("file")
        .with_function(Function::native("read_to_string", 1))
        .with_function(Function::native("read_to_bytes", 1))
        .build();
    proof {
        reveal_strlit("file");
    }
    r
}

} // verus!
