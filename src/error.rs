use vstd::prelude::*;

verus! {

/// What can go wrong while loading or running a program.
#[derive(Debug, Clone)]
pub enum Error {
    StackUnderflow,
    /// The operand stack is at its capacity and a value was to be pushed.
    StackOverflow,
    TypeMismatch,
    DivideByZero,
    IndexOutOfBounds,
    NullDereference,
    ModuleNotFound(String),
    ModuleAlreadyExists(String),
    FunctionNotFound(String),
    ClassNotFound(String),
    ClassAlreadyExists(String),
    FieldNotFound(String),
    InvalidConstantPoolEntry(usize),
    MalformedModule,
    UnknownOpcode(u8),
    /// The heap holds as many objects as a handle can name.
    HeapExhausted,
    IoError(String),
}

impl Error {
    /// An error reported by the host, carried as its message.
    pub fn other(message: String) -> (r: Error)
        ensures
            r == Error::IoError(message),
    {
        Error::IoError(message)
    }
}

/// An error reported by the host, carried as its message.
pub fn other(message: String) -> (r: Error)
    ensures
        r == Error::IoError(message),
{
    Error::IoError(message)
}

} // verus!
