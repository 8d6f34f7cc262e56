// A stack-based bytecode virtual machine: tagged values, module files, a loader, an
// operand stack and local frames, a mark-and-sweep heap, and the interpreter.
pub mod arena;
pub mod class;
pub mod context;
pub mod error;
pub mod formatting;
pub mod function;
pub mod heap;
pub mod loader;
pub mod local;
pub mod module;
pub mod module_file;
pub mod opcode;
pub mod pool_entry;
pub mod read_bytes;
pub mod runtime;
pub mod stack;
pub mod value;
pub mod write_bytes;
