use vstd::prelude::*;

use crate::function::Function;
use super::{Module, ModuleBuilder};

verus! {
/// The built-in module `tcp`: `new_listener`, `destroy`, `accept`, `recv_string` and `send_string`.
pub fn module() -> (r: Module)
    ensures
        r.name@ == "tcp"@,
        r@.functions.len() == 5,
{
    let r = ModuleBuilder::new()
        .with_name("tcp")
        .with_function(Function::native("new_listener", 1))
        .with_function(Function::native("destroy", 1))
        .with_function(Function::native("accept", 1))
        .with_function(Function::native("recv_string", 1))
        .with_function(Function::native("send_string", 2))
        .build();
    proof {
        reveal_strlit("tcp");
    }
    r
}

} // verus!
