use vstd::prelude::*;

verus! {

/// Stops the program.
pub const HALT: u8 = 0x00;

/// Returns from the current call.
pub const RETURN: u8 = 0x01;

/// Pushes the integer 0.
pub const ICONST_0: u8 = 0x02;

/// Pushes the integer 1.
pub const ICONST_1: u8 = 0x03;

/// Pushes a local; the index follows as a byte.
pub const LOAD: u8 = 0x04;

/// Pops into a local; the index follows as a byte.
pub const STORE: u8 = 0x05;

/// Pushes the float 0.0.
pub const FCONST_0: u8 = 0x06;

/// Pushes the float 1.0.
pub const FCONST_1: u8 = 0x07;

/// Pushes local 0.
pub const LOAD_0: u8 = 0x08;

/// Pushes local 1.
pub const LOAD_1: u8 = 0x09;

/// Pushes local 2.
pub const LOAD_2: u8 = 0x0A;

/// Pushes local 3.
pub const LOAD_3: u8 = 0x0B;

/// Converts an integer to a float.
pub const I2F: u8 = 0x0C;

/// Converts a float to an integer, toward zero.
pub const F2I: u8 = 0x0D;

/// Jumps; the target follows as two bytes.
pub const GOTO: u8 = 0x0E;

/// Calls a function; a module entry and a function entry of the pool follow, two bytes each.
pub const CALL: u8 = 0x0F;

/// Pushes a pool entry; its index follows as a byte.
pub const LOADCONST: u8 = 0x10;

/// Creates an instance and runs its constructor; a class entry follows as two bytes.
pub const NEW: u8 = 0x11;

/// Pops a value and an instance and sets a field; a field entry follows as two bytes.
pub const SET_FIELD: u8 = 0x12;

/// Pops an instance and pushes a field; a field entry follows as two bytes.
pub const GET_FIELD: u8 = 0x13;

/// Pushes a byte, widened to an integer.
pub const I_PUSH_BYTE: u8 = 0x14;

/// Pushes two bytes, widened to an integer.
pub const I_PUSH_SHORT: u8 = 0x15;

/// Drops the top value.
pub const POP: u8 = 0x16;

/// Branches if two integers are equal.
pub const I_IFEQ: u8 = 0x17;

/// Branches if two integers differ.
pub const I_IFNEQ: u8 = 0x18;

/// Branches if the lower integer is greater.
pub const I_IFGT: u8 = 0x19;

/// Branches if the lower integer is greater or equal.
pub const I_IFGE: u8 = 0x1A;

/// Branches if the lower integer is less.
pub const I_IFLT: u8 = 0x1B;

/// Branches if the lower integer is less or equal.
pub const I_IFLE: u8 = 0x1C;

/// Adds integers.
pub const IADD: u8 = 0x1D;

/// Subtracts integers.
pub const ISUB: u8 = 0x1E;

/// Multiplies integers.
pub const IMUL: u8 = 0x1F;

/// Divides integers.
pub const IDIV: u8 = 0x20;

/// Remainder of integers.
pub const IREM: u8 = 0x21;

/// Bitwise and of integers.
pub const IAND: u8 = 0x22;

/// Bitwise or of integers.
pub const IOR: u8 = 0x23;

/// Bitwise exclusive or of integers.
pub const IXOR: u8 = 0x24;

/// Shifts an integer left.
pub const ISHL: u8 = 0x25;

/// Shifts an integer right, keeping its sign.
pub const ISHR: u8 = 0x26;

/// Shifts an integer right as an unsigned word.
pub const IUSHR: u8 = 0x27;

/// Negates an integer.
pub const INEG: u8 = 0x28;

/// Pops into local 0.
pub const STORE_0: u8 = 0x29;

/// Pops into local 1.
pub const STORE_1: u8 = 0x2A;

/// Pops into local 2.
pub const STORE_2: u8 = 0x2B;

/// Pops into local 3.
pub const STORE_3: u8 = 0x2C;

/// Duplicates the top value.
pub const DUP: u8 = 0x2D;

/// Pops a size and pushes a new array of nulls.
pub const NEW_ARRAY: u8 = 0x2F;

/// Pops an array and an index and pushes the slot.
pub const ARRAY_GET: u8 = 0x30;

/// Pops an array, an index and a value and sets the slot.
pub const ARRAY_SET: u8 = 0x31;

/// Adds a signed byte to an integer local; index and delta follow.
pub const IINC: u8 = 0x32;

/// Branches if the popped value is null.
pub const IF_NULL: u8 = 0x33;

/// Branches if the popped value is not null.
pub const IFNOT_NULL: u8 = 0x34;

/// Pushes null.
pub const CONST_NULL: u8 = 0x35;

/// Raises an integer to a power.
pub const IEXP: u8 = 0x36;

/// Replaces a number by 1 if it is zero, else by 0.
pub const IS_ZERO: u8 = 0x37;

/// Calls the current function again in place.
pub const TAILCALL: u8 = 0x38;

/// Adds floats.
pub const FADD: u8 = 0x39;

/// Subtracts floats.
pub const FSUB: u8 = 0x40;

/// Multiplies floats.
pub const FMUL: u8 = 0x41;

/// Divides floats.
pub const FDIV: u8 = 0x42;

/// Remainder of floats.
pub const FREM: u8 = 0x43;

/// Negates a float.
pub const FNEG: u8 = 0x44;

/// Pushes a byte.
pub const PUSH_BYTE: u8 = 0x45;

/// Adds bytes.
pub const BADD: u8 = 0x46;

/// Subtracts bytes.
pub const BSUB: u8 = 0x47;

/// Multiplies bytes.
pub const BMUL: u8 = 0x48;

/// Divides bytes.
pub const BDIV: u8 = 0x49;

/// Remainder of bytes.
pub const BREM: u8 = 0x4A;

/// Bitwise and of bytes.
pub const BAND: u8 = 0x4B;

/// Bitwise or of bytes.
pub const BOR: u8 = 0x4C;

/// Bitwise exclusive or of bytes.
pub const BXOR: u8 = 0x4D;

/// Shifts a byte left.
pub const BSHL: u8 = 0x4E;

/// Shifts a byte right.
pub const BSHR: u8 = 0x4F;

/// Negates a byte.
pub const BNEG: u8 = 0x50;

/// Pushes a new empty dictionary.
pub const NEW_DICT: u8 = 0x51;

/// Pops a dictionary and a key and pushes the value.
pub const GET_DICT: u8 = 0x52;

/// Pops a dictionary, a key and a value and stores the value.
pub const SET_DICT: u8 = 0x53;

/// Pops a receiver and calls a method; a class entry and a function entry follow.
pub const CALL_METHOD: u8 = 0x54;


} // verus!
