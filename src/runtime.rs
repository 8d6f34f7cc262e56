use vstd::prelude::*;

use crate::context::{find_class, find_module, Context};
use crate::error::Error;
use crate::function::{find_function, Code, Function};
use crate::heap::{Heap, Object};
use crate::local::Local;
use crate::pool_entry::PoolEntry;
use crate::opcode;
use crate::stack::{drop_top, prims_over, ByteOp, Comparison, IntOp, Stack, STACK_SIZE};
use crate::value::{Value, TAG_INTEGER};

verus! {

/// Instructions between two collections.
pub const GC_TICK: u64 = 100_000_000;

/// Where the running function lives: a module or a class, by its index in the context.
#[derive(Clone, Copy, PartialEq, Eq, Structural, Debug)]
pub enum Current {
    Module(usize),
    Class(usize),
}

impl Current {
    pub fn is_module(&self) -> (r: bool)
        ensures
            r == (*self is Module),
    {
        match self {
            Current::Module(_) => true,
            Current::Class(_) => false,
        }
    }
}

/// The stack after the host answered the float operation `op` with `result`; `None` where
/// the operands do not have the tags the operation takes.
pub open spec fn float_finished(op: FloatOp, s: Seq<Value>, result: u32) -> Option<Seq<Value>> {
    match op {
        FloatOp::IntToFloat => if s.len() > 0 && s.last().is_int() {
            Some(drop_top(s, 1).push(Value::float_value(result)))
        } else {
            None
        },
        FloatOp::FloatToInt => if s.len() > 0 && s.last().is_float() {
            Some(drop_top(s, 1).push(Value::of_int(result as i32)))
        } else {
            None
        },
        _ => if crate::stack::top_two_floats(s) {
            Some(drop_top(s, 2).push(Value::float_value(result)))
        } else {
            None
        },
    }
}

impl<'c> Runtime<'c> {
    /// The states agree on all that a call reads, but the instruction pointer and the objects.
    pub open spec fn same_call_state(m: &Runtime<'c>, b: &Runtime<'c>) -> bool {
        m.stack_spec() == b.stack_spec() && Runtime::same_call_state_but_stack(m, b)
    }

    pub open spec fn same_call_state_but_stack(m: &Runtime<'c>, b: &Runtime<'c>) -> bool {
        &&& m.local_spec() == b.local_spec()
        &&& m.frames() == b.frames()
        &&& m.unit_spec() == b.unit_spec()
        &&& m.function_spec() == b.function_spec()
        &&& m.context_spec() == b.context_spec()
    }

    /// `TAILCALL` can run: the stack holds the arguments, and the frame has a slot for each.
    pub open spec fn can_tailcall(before: &Runtime<'c>) -> bool {
        let n = before.current_function().arguments as int;
        before.stack_spec().len() >= n && (n == 0 || before.local_spec().in_frame(n - 1))
    }

    /// `TAILCALL` ran: the arguments moved from the stack into the first slots of the same
    /// frame, in order, and the function starts again, with no frame saved.
    pub open spec fn tailcalled(before: &Runtime<'c>, after: &Runtime<'c>) -> bool {
        let n = before.current_function().arguments as int;
        let s = before.stack_spec();
        let l = before.local_spec();
        let base = l.base_spec() as int;
        &&& after.stack_spec() == drop_top(s, n)
        &&& after.local_spec().base_spec() == l.base_spec()
        &&& after.local_spec().values().len() == l.values().len()
        &&& forall|k: int| 0 <= k < n ==> #[trigger] after.local_spec().values()[base + k] == s[s.len() - n + k]
        &&& forall|j: int| 0 <= j < l.values().len() && !(base <= j < base + n) ==> #[trigger] after.local_spec().values()[j]
            == l.values()[j]
        &&& after.frames() == before.frames()
        &&& after.ip_spec() == 0
        &&& after.unit_spec() == before.unit_spec()
        &&& after.function_spec() == before.function_spec()
    }

    /// The call can be made: the frame has room for the receiver and the arguments, the stack
    /// holds the arguments (and room for the receiver where it goes back), and the locals fit.
    pub open spec fn can_enter(before: &Runtime<'c>, unit: Current, fi: usize, receiver: Option<Value>, push_receiver: bool) -> bool {
        let f = function_of(before.context_spec(), unit, fi as int)->Some_0;
        let first: int = if receiver is Some { 1 } else { 0 };
        &&& f.locals >= f.arguments + first
        &&& before.stack_spec().len() >= f.arguments
        &&& !(push_receiver && f.arguments == 0 && before.stack_spec().len() >= STACK_SIZE)
        &&& before.local_spec().values().len() + f.locals <= usize::MAX
    }

    /// The call was made: a new frame holds the receiver, then the arguments in order, then
    /// zeros; the arguments left the stack (and the receiver came back on it where asked);
    /// the caller is saved, and the callee starts at 0.
    pub open spec fn entered(before: &Runtime<'c>, after: &Runtime<'c>, unit: Current, fi: usize, receiver: Option<Value>, push_receiver: bool) -> bool {
        let f = function_of(before.context_spec(), unit, fi as int)->Some_0;
        let first: int = if receiver is Some { 1 } else { 0 };
        let n = f.arguments as int;
        let base = before.local_spec().values().len() as int;
        let s = before.stack_spec();
        let l = after.local_spec().values();
        &&& after.local_spec().base_spec() == base
        &&& l.len() == base + f.locals
        &&& l.subrange(0, base) == before.local_spec().values()
        &&& (receiver matches Some(v) ==> l[base] == v)
        &&& forall|k: int| 0 <= k < n ==> #[trigger] l[base + first + k] == s[s.len() - n + k]
        &&& forall|j: int| base + first + n <= j < l.len() ==> #[trigger] l[j] == Value::of_int(0)
        &&& after.stack_spec() == if push_receiver {
            drop_top(s, n).push(receiver->Some_0)
        } else {
            drop_top(s, n)
        }
        &&& after.frames() == before.frames().push(Frame {
            return_address: before.ip_spec() as usize,
            local_frame: before.local_spec().base_spec() as usize,
            unit: before.unit_spec(),
            function: before.function_spec(),
        })
        &&& after.ip_spec() == 0
        &&& after.unit_spec() == unit
        &&& after.function_spec() == fi
        &&& after.context_spec() == before.context_spec()
        &&& after.heap_spec() == before.heap_spec()
    }
}

/// The integer operation of an opcode.
pub open spec fn int_opcode(op: u8) -> Option<IntOp> {
    if op == opcode::IADD { Some(IntOp::Add) } else if op == opcode::ISUB { Some(IntOp::Sub) }
    else if op == opcode::IMUL { Some(IntOp::Mul) } else if op == opcode::IDIV { Some(IntOp::Div) }
    else if op == opcode::IREM { Some(IntOp::Rem) } else if op == opcode::IAND { Some(IntOp::And) }
    else if op == opcode::IOR { Some(IntOp::Or) } else if op == opcode::IXOR { Some(IntOp::Xor) }
    else if op == opcode::ISHL { Some(IntOp::Shl) } else if op == opcode::ISHR { Some(IntOp::Shr) }
    else if op == opcode::IUSHR { Some(IntOp::Ushr) } else { None }
}

/// The byte operation of an opcode.
pub open spec fn byte_opcode(op: u8) -> Option<ByteOp> {
    if op == opcode::BADD { Some(ByteOp::Add) } else if op == opcode::BSUB { Some(ByteOp::Sub) }
    else if op == opcode::BMUL { Some(ByteOp::Mul) } else if op == opcode::BDIV { Some(ByteOp::Div) }
    else if op == opcode::BREM { Some(ByteOp::Rem) } else if op == opcode::BAND { Some(ByteOp::And) }
    else if op == opcode::BOR { Some(ByteOp::Or) } else if op == opcode::BXOR { Some(ByteOp::Xor) }
    else if op == opcode::BSHL { Some(ByteOp::Shl) } else if op == opcode::BSHR { Some(ByteOp::Shr) }
    else { None }
}

/// The value a constant-pushing opcode pushes.
pub open spec fn const_opcode(op: u8) -> Option<Value> {
    if op == opcode::ICONST_0 { Some(Value::of_int(0)) } else if op == opcode::ICONST_1 { Some(Value::of_int(1)) }
    else if op == opcode::FCONST_0 { Some(Value::float_value(0)) }
    else if op == opcode::FCONST_1 { Some(Value::float_value(crate::stack::FLOAT_ONE_BITS)) }
    else if op == opcode::CONST_NULL { Some(Value(0)) } else { None }
}

/// `LOADCONST` whose index stands in the code of `rt` at `at`: an integer or a float is pushed;
/// a string is pushed as a new string object with its text.
pub open spec fn loadconst_post<T>(rt: &Runtime, at: int, h: Heap, h2: Heap, s: Seq<Value>, t: Seq<Value>, r: Result<T, Error>) -> bool {
    let i = rt.code_byte(at)->Some_0 as int;
    rt.code_byte(at) is Some && i < rt.pool().len() ==> match rt.pool()[i] {
        PoolEntry::Integer(x) => push_post(s, t, Value::of_int(x), r) && h2 == h,
        PoolEntry::Float(x) => push_post(s, t, Value::float_value(x), r) && h2 == h,
        PoolEntry::String(x) => s.len() < STACK_SIZE && h.has_room() ==> {
            &&& r is Ok
            &&& t.len() == s.len() + 1
            &&& t.subrange(0, s.len() as int) == s
            &&& t.last().spec_tag() == crate::value::TAG_STRING
            &&& h2.object(t.last().spec_payload() as int) matches Object::String(o) && o.contents@ == x@
            &&& h2.allocated(&h, t.last().spec_payload() as int, h2.object(t.last().spec_payload() as int))
        },
        _ => true,
    }
}

/// The field named `fname` of the class named `cn` is at `k`: its first field of that name.
pub open spec fn field_offset_of(ctx: Context, cn: Seq<char>, fname: Seq<char>, k: int) -> bool {
    exists|c: int|
        0 <= c < ctx.classes_spec().len() && #[trigger] ctx.classes_spec()[c].name@ == cn && 0 <= k
            < ctx.classes_spec()[c].fields@.len() && ctx.classes_spec()[c].fields@[k]@ == fname && forall|j: int|
            0 <= j < k ==> ctx.classes_spec()[c].fields@[j]@ != fname
}

/// The instance that `v` refers to in `h`.
pub open spec fn instance_at(h: Heap, v: Value) -> crate::heap::ObjClass {
    h.object(v.spec_payload() as int)->Instance_0
}

/// The name in the pool entry that stands in the code of `rt` at `at`.
pub open spec fn field_entry_name(rt: &Runtime, at: int) -> Seq<char> {
    rt.pool()[rt.operand_u16(at)]->Field_0@
}

/// A `GET_FIELD` whose pool index stands in the code of `rt` at `at` pushed, in place of the
/// instance on top, the slot of the field that the pool entry names.
pub open spec fn get_field_post(rt: &Runtime, at: int, h: Heap, s: Seq<Value>, t: Seq<Value>) -> bool {
    &&& 0 <= rt.operand_u16(at) < rt.pool().len() && rt.pool()[rt.operand_u16(at)] is Field
    &&& s.len() >= 1 && h.ref_error(s.last(), crate::value::TAG_CLASS) is None
    &&& h.object(s.last().spec_payload() as int) is Instance
    &&& exists|k: int|
        #[trigger] field_offset_of(rt.context_spec(), instance_at(h, s.last()).class_name@, field_entry_name(rt, at), k)
            && k < instance_at(h, s.last()).fields@.len() && t == drop_top(s, 1).push(instance_at(h, s.last()).fields@[k])
}

/// A `SET_FIELD` whose pool index stands in the code of `rt` at `at` stored the value on top in
/// the slot of the named field of the instance below it, and popped both.
pub open spec fn set_field_post(rt: &Runtime, at: int, h: Heap, h2: Heap, s: Seq<Value>, t: Seq<Value>) -> bool {
    &&& 0 <= rt.operand_u16(at) < rt.pool().len() && rt.pool()[rt.operand_u16(at)] is Field
    &&& s.len() >= 2 && h.ref_error(s[s.len() - 2], crate::value::TAG_CLASS) is None
    &&& h.object(s[s.len() - 2].spec_payload() as int) is Instance
    &&& t == drop_top(s, 2)
    &&& h2.same_except(&h, s[s.len() - 2].spec_payload() as int)
    &&& exists|k: int|
        #[trigger] field_offset_of(rt.context_spec(), instance_at(h, s[s.len() - 2]).class_name@, field_entry_name(rt, at), k)
            && k < instance_at(h, s[s.len() - 2]).fields@.len()
            && h2.object(s[s.len() - 2].spec_payload() as int) is Instance
            && instance_at(h2, s[s.len() - 2]).fields@ == instance_at(h, s[s.len() - 2]).fields@.update(k, s.last())
}

/// `ARRAY_GET` on the heap `h`: the stack `s` holds an array, then an integer index.
pub open spec fn array_get_post<T>(h: Heap, s: Seq<Value>, t: Seq<Value>, r: Result<T, Error>) -> bool {
    let n = s.len() as int;
    if n < 2 {
        r == Err::<T, Error>(Error::StackUnderflow) && t == s
    } else if !s[n - 1].is_int() {
        r == Err::<T, Error>(Error::TypeMismatch) && t == s
    } else if h.ref_error(s[n - 2], crate::value::TAG_ARRAY) is Some {
        r == Err::<T, Error>(h.ref_error(s[n - 2], crate::value::TAG_ARRAY)->Some_0) && t == s
    } else {
        let a = h.object(s[n - 2].spec_payload() as int)->Array_0.arr@;
        let i = s[n - 1].spec_integer() as int;
        if 0 <= i < a.len() {
            r is Ok && t == drop_top(s, 2).push(a[i])
        } else {
            r == Err::<T, Error>(Error::IndexOutOfBounds) && t == s
        }
    }
}

/// `ARRAY_SET` on the heap `h`, giving `h2`: the stack `s` holds an array, an integer index and a value.
pub open spec fn array_set_post<T>(h: Heap, h2: Heap, s: Seq<Value>, t: Seq<Value>, r: Result<T, Error>) -> bool {
    let n = s.len() as int;
    if n < 3 {
        r == Err::<T, Error>(Error::StackUnderflow) && t == s && h2 == h
    } else if !s[n - 2].is_int() {
        r == Err::<T, Error>(Error::TypeMismatch) && t == s && h2 == h
    } else if h.ref_error(s[n - 3], crate::value::TAG_ARRAY) is Some {
        r == Err::<T, Error>(h.ref_error(s[n - 3], crate::value::TAG_ARRAY)->Some_0) && t == s && h2 == h
    } else {
        let handle = s[n - 3].spec_payload() as int;
        let a = h.object(handle)->Array_0.arr@;
        let i = s[n - 2].spec_integer() as int;
        if 0 <= i < a.len() {
            &&& r is Ok
            &&& t == drop_top(s, 3)
            &&& h2.same_except(&h, handle)
            &&& h2.object(handle) matches Object::Array(b) && b.arr@ == a.update(i, s[n - 1])
        } else {
            r == Err::<T, Error>(Error::IndexOutOfBounds) && t == s && h2 == h
        }
    }
}

/// `NEW_ARRAY` on the heap `h`, giving `h2`: the size on top becomes a new array of that many nulls.
pub open spec fn new_array_post<T>(h: Heap, h2: Heap, s: Seq<Value>, t: Seq<Value>, r: Result<T, Error>) -> bool {
    let n = s.len() as int;
    if n < 1 {
        r == Err::<T, Error>(Error::StackUnderflow) && t == s && h2 == h
    } else if !s[n - 1].is_int() {
        r == Err::<T, Error>(Error::TypeMismatch) && t == s && h2 == h
    } else if s[n - 1].spec_integer() < 0 {
        r == Err::<T, Error>(Error::IndexOutOfBounds) && t == s && h2 == h
    } else if !h.has_room() {
        r == Err::<T, Error>(Error::HeapExhausted) && t == s && h2 == h
    } else {
        &&& r is Ok
        &&& t.len() == n
        &&& t.subrange(0, n - 1) == s.subrange(0, n - 1)
        &&& t[n - 1].spec_tag() == crate::value::TAG_ARRAY
        &&& h2.allocated(&h, t[n - 1].spec_payload() as int, h2.object(t[n - 1].spec_payload() as int))
        &&& h2.object(t[n - 1].spec_payload() as int) matches Object::Array(a)
            && a.arr@ == Seq::new(s[n - 1].spec_integer() as nat, |i: int| Value(0))
    }
}

/// Pushing slot `k` of the current frame of `l`.
pub open spec fn load_post<T>(l: Local, k: int, s: Seq<Value>, t: Seq<Value>, r: Result<T, Error>) -> bool {
    if !l.in_frame(k) {
        r == Err::<T, Error>(Error::IndexOutOfBounds) && t == s
    } else if s.len() >= STACK_SIZE {
        r == Err::<T, Error>(Error::StackOverflow) && t == s
    } else {
        r is Ok && t == s.push(l.values()[l.base_spec() + k])
    }
}

/// Popping into slot `k` of the current frame: `l` before, `l2` after.
pub open spec fn store_post<T>(l: Local, l2: Local, k: int, s: Seq<Value>, t: Seq<Value>, r: Result<T, Error>) -> bool {
    if !l.in_frame(k) {
        r == Err::<T, Error>(Error::IndexOutOfBounds) && t == s && l2 == l
    } else if s.len() == 0 {
        r == Err::<T, Error>(Error::StackUnderflow) && t == s && l2 == l
    } else {
        r is Ok && t == drop_top(s, 1) && l2.values() == l.values().update(l.base_spec() + k, s.last())
            && l2.base_spec() == l.base_spec()
    }
}

/// The instructions with operands in the code that push a number or work on a local slot.
pub open spec fn is_operand_local_opcode(op: u8) -> bool {
    op == opcode::I_PUSH_BYTE || op == opcode::I_PUSH_SHORT || op == opcode::PUSH_BYTE || op == opcode::LOAD
        || op == opcode::STORE || op == opcode::IINC
}

/// Pushing `v`, where the stack has room.
pub open spec fn push_post<T>(s: Seq<Value>, t: Seq<Value>, v: Value, r: Result<T, Error>) -> bool {
    if s.len() >= STACK_SIZE {
        r == Err::<T, Error>(Error::StackOverflow) && t == s
    } else {
        r is Ok && t == s.push(v)
    }
}

/// What an instruction of `is_operand_local_opcode`, whose operands stand in the code of `rt`
/// from `at` on, does to the stack `s` (giving `t`), the locals `l` (giving `l2`) and the
/// instruction pointer (giving `ip`), where its operands are there.
pub open spec fn operand_local_post<T>(rt: &Runtime, at: int, op: u8, l: Local, l2: Local, s: Seq<Value>, t: Seq<Value>, ip: int, r: Result<T, Error>) -> bool {
    let b = rt.code_byte(at)->Some_0;
    if op == opcode::I_PUSH_BYTE {
        rt.code_byte(at) is Some ==> push_post(s, t, Value::of_int(b as i32), r) && l2 == l && (r is Ok ==> ip == at + 1)
    } else if op == opcode::PUSH_BYTE {
        rt.code_byte(at) is Some ==> push_post(s, t, Value::byte_value(b), r) && l2 == l && (r is Ok ==> ip == at + 1)
    } else if op == opcode::I_PUSH_SHORT {
        rt.code_byte(at) is Some && rt.code_byte(at + 1) is Some ==> push_post(s, t, Value::of_int(rt.operand_u16(at) as i32), r)
            && l2 == l && (r is Ok ==> ip == at + 2)
    } else if op == opcode::LOAD {
        rt.code_byte(at) is Some ==> load_post(l, b as int, s, t, r) && l2 == l && (r is Ok ==> ip == at + 1)
    } else if op == opcode::STORE {
        rt.code_byte(at) is Some ==> store_post(l, l2, b as int, s, t, r) && (r is Ok ==> ip == at + 1)
    } else {
        rt.code_byte(at) is Some && rt.code_byte(at + 1) is Some ==> {
            let d = (rt.code_byte(at + 1)->Some_0 as i8) as i32;
            if !l.in_frame(b as int) {
                r == Err::<T, Error>(Error::IndexOutOfBounds) && l2 == l && t == s
            } else if !l.values()[l.base_spec() + b].is_int() {
                r == Err::<T, Error>(Error::TypeMismatch) && l2.values() == l.values() && l2.base_spec() == l.base_spec() && t == s
            } else {
                &&& r is Ok
                &&& t == s
                &&& ip == at + 2
                &&& l2.base_spec() == l.base_spec()
                &&& l2.values() == l.values().update(l.base_spec() + b, Value::of_int(
                    vstd::wrapping::i32_specs::wrapping_add(l.values()[l.base_spec() + b].spec_integer(), d),
                ))
            }
        }
    }
}

/// The slot that `LOAD_0` to `LOAD_3` push.
pub open spec fn load_slot(op: u8) -> Option<int> {
    if op == opcode::LOAD_0 { Some(0) } else if op == opcode::LOAD_1 { Some(1) }
    else if op == opcode::LOAD_2 { Some(2) } else if op == opcode::LOAD_3 { Some(3) } else { None }
}

/// The slot that `STORE_0` to `STORE_3` pop into.
pub open spec fn store_slot(op: u8) -> Option<int> {
    if op == opcode::STORE_0 { Some(0) } else if op == opcode::STORE_1 { Some(1) }
    else if op == opcode::STORE_2 { Some(2) } else if op == opcode::STORE_3 { Some(3) } else { None }
}

/// The comparison of a conditional branch.
pub open spec fn cmp_opcode(op: u8) -> Option<Comparison> {
    if op == opcode::I_IFEQ { Some(Comparison::Eq) } else if op == opcode::I_IFNEQ { Some(Comparison::Neq) }
    else if op == opcode::I_IFGT { Some(Comparison::Gt) } else if op == opcode::I_IFGE { Some(Comparison::Ge) }
    else if op == opcode::I_IFLT { Some(Comparison::Lt) } else if op == opcode::I_IFLE { Some(Comparison::Le) }
    else { None }
}

pub open spec fn is_branch_opcode(op: u8) -> bool {
    op == opcode::GOTO || cmp_opcode(op) is Some || op == opcode::IF_NULL || op == opcode::IFNOT_NULL
}

/// The values a branch pops.
pub open spec fn branch_pops(op: u8) -> int {
    if op == opcode::GOTO { 0 } else if cmp_opcode(op) is Some { 2 } else { 1 }
}

/// What is wrong with the operands of a branch, if anything.
pub open spec fn branch_error(op: u8, s: Seq<Value>) -> Option<Error> {
    if op == opcode::GOTO {
        None
    } else if cmp_opcode(op) is Some {
        if s.len() < 2 { Some(Error::StackUnderflow) }
        else if !crate::stack::top_two_ints(s) { Some(Error::TypeMismatch) } else { None }
    } else if s.len() == 0 {
        Some(Error::StackUnderflow)
    } else {
        None
    }
}

/// The branch is taken on the stack `s`.
pub open spec fn branch_taken(op: u8, s: Seq<Value>) -> bool {
    if op == opcode::GOTO {
        true
    } else if cmp_opcode(op) is Some {
        crate::stack::compare_result(cmp_opcode(op)->Some_0, s[s.len() - 2].spec_integer(), s[s.len() - 1].spec_integer())
    } else if op == opcode::IF_NULL {
        s.last().0 == 0
    } else {
        s.last().0 != 0
    }
}

/// A branch whose target stands in the code of `rt` at `at`: it pops its operands, then goes to
/// the target where taken, past it elsewhere.
pub open spec fn branch_post<T>(rt: &Runtime, at: int, op: u8, s: Seq<Value>, t: Seq<Value>, ip: int, r: Result<T, Error>) -> bool {
    match branch_error(op, s) {
        Some(e) => r == Err::<T, Error>(e) && t == s,
        None => rt.code_byte(at) is Some && rt.code_byte(at + 1) is Some ==> {
            &&& r is Ok
            &&& t == drop_top(s, branch_pops(op))
            &&& ip == if branch_taken(op, s) { rt.operand_u16(at) } else { at + 2 }
        },
    }
}

/// The opcodes that touch the operand stack alone.
pub open spec fn is_stack_opcode(op: u8) -> bool {
    int_opcode(op) is Some || byte_opcode(op) is Some || const_opcode(op) is Some || op == opcode::IEXP
        || op == opcode::INEG || op == opcode::BNEG || op == opcode::FNEG || op == opcode::IS_ZERO
        || op == opcode::POP || op == opcode::DUP
}

/// A result without its payload.
pub open spec fn unit_of<T>(r: Result<T, Error>) -> Result<(), Error> {
    match r {
        Ok(_) => Ok(()),
        Err(e) => Err(e),
    }
}

/// What the opcodes on the operand stack alone do to it: `s` before, `t` after.
pub open spec fn stack_opcode_post<T>(op: u8, s: Seq<Value>, t: Seq<Value>, r: Result<T, Error>) -> bool {
    &&& (int_opcode(op) matches Some(io) ==> crate::stack::int_binary_post(io, s, t, unit_of(r)))
    &&& (byte_opcode(op) matches Some(bo) ==> crate::stack::byte_binary_post(bo, s, t, unit_of(r)))
    &&& (op == opcode::IEXP ==> crate::stack::iexp_post(s, t, unit_of(r)))
    &&& (op == opcode::INEG ==> crate::stack::unary_post(s, t, unit_of(r), if s.len() > 0 { crate::stack::ineg_result(s.last()) } else { None }))
    &&& (op == opcode::BNEG ==> crate::stack::unary_post(s, t, unit_of(r), if s.len() > 0 { crate::stack::bneg_result(s.last()) } else { None }))
    &&& (op == opcode::FNEG ==> crate::stack::unary_post(s, t, unit_of(r), if s.len() > 0 { crate::stack::fneg_result(s.last()) } else { None }))
    &&& (op == opcode::IS_ZERO ==> crate::stack::unary_post(s, t, unit_of(r), if s.len() > 0 { crate::stack::is_zero_result(s.last()) } else { None }))
    &&& (op == opcode::POP ==> if s.len() == 0 {
        r == Err::<T, Error>(Error::StackUnderflow) && t == s
    } else {
        r is Ok && t == drop_top(s, 1)
    })
    &&& (op == opcode::DUP ==> if s.len() == 0 {
        r == Err::<T, Error>(Error::StackUnderflow) && t == s
    } else if s.len() >= STACK_SIZE {
        r == Err::<T, Error>(Error::StackOverflow) && t == s
    } else {
        r is Ok && t == s.push(s.last())
    })
    &&& (const_opcode(op) matches Some(v) ==> if s.len() >= STACK_SIZE {
        r == Err::<T, Error>(Error::StackOverflow) && t == s
    } else {
        r is Ok && t == s.push(v)
    })
}

/// What `run` returned, as the result of the instruction that stopped it.
pub open spec fn step_result(r: Result<Event, Error>) -> Result<Option<Event>, Error> {
    match r {
        Ok(Event::Paused) => Ok(None),
        Ok(e) => Ok(Some(e)),
        Err(e) => Err(e),
    }
}

/// The module the program starts in: the one given, else `main`.
pub open spec fn entry_name(opts: BootOptions) -> Seq<char> {
    match opts.entrypoint_module {
        Some(n) => n@,
        None => "main"@,
    }
}

/// What booting in the module `m`, at index `i`, gives: no function `main` is
/// `FunctionNotFound`; a `main` that takes arguments is malformed; otherwise the machine
/// stands at the start of the first `main`, its locals all the integer zero.
pub open spec fn booted_at(m: crate::module::Module, i: int, r: Result<Runtime, Error>) -> bool {
    &&& (forall|j: int| 0 <= j < m.functions@.len() ==> m.functions@[j].name@ != "main"@) ==> (r matches Err(e)
        && e is FunctionNotFound)
    &&& forall|f: int| crate::function::first_named(m.functions@, "main"@, f) ==> {
        &&& m.functions@[f].arguments != 0 ==> r == Err::<Runtime, Error>(Error::MalformedModule)
        &&& m.functions@[f].arguments == 0 ==> (r matches Ok(rt) && rt.unit_spec() == Current::Module(i as usize)
            && rt.function_spec() == f && rt.ip_spec() == 0 && rt.local_spec().base_spec() == 0
            && rt.local_spec().values() == crate::local::zeros(m.functions@[f].locals as nat))
    }
}

/// The name of a unit.
pub open spec fn unit_name_of(ctx: Context, u: Current) -> Seq<char> {
    match u {
        Current::Module(m) => ctx.modules_spec()[m as int].name@,
        Current::Class(c) => ctx.classes_spec()[c as int].name@,
    }
}

/// The entry `e` shows the unit, function and instruction pointer `t`.
pub open spec fn entry_is(e: TraceEntry, t: (Seq<char>, Seq<char>, usize)) -> bool {
    e.unit@ == t.0 && e.function@ == t.1 && e.ip == t.2
}

pub open spec fn trace_matches(r: Seq<TraceEntry>, t: Seq<(Seq<char>, Seq<char>, usize)>) -> bool {
    r.len() == t.len() && forall|k: int| 0 <= k < r.len() ==> entry_is(#[trigger] r[k], t[k])
}

/// A saved caller: where to go on, the base of its local frame, and its function.
#[derive(Clone, Copy, PartialEq, Eq, Structural, Debug)]
pub struct Frame {
    pub return_address: usize,
    pub local_frame: usize,
    pub unit: Current,
    pub function: usize,
}

/// The float operations, which the host computes.
#[derive(Clone, Copy, PartialEq, Eq, Structural, Debug)]
pub enum FloatOp {
    Add,
    Sub,
    Mul,
    Div,
    Rem,
    IntToFloat,
    FloatToInt,
}

/// Why `run` stopped.
#[derive(Clone, Debug)]
pub enum Event {
    /// The program ended.
    Halted,
    /// A built-in function was called: its arguments are in the current local frame. The host
    /// runs it and hands its result to `finish_native`.
    Native { unit: String, function: String },
    /// A float operation on the bit patterns `lhs` and `rhs` (for a conversion, `lhs` alone; an
    /// integer as its two's-complement word). The host hands the result to `finish_float`.
    Float { op: FloatOp, lhs: u32, rhs: u32 },
    /// The budget of instructions was spent.
    Paused,
}

/// What the machine waits for from the host.
#[derive(Clone, Copy, PartialEq, Eq, Structural, Debug)]
pub enum Pending {
    Halted,
    Native,
    Float(FloatOp, u32, u32),
}

/// A line of a stack trace: a unit, a function, and an instruction pointer.
#[derive(Clone, Debug)]
pub struct TraceEntry {
    pub unit: String,
    pub function: String,
    pub ip: usize,
}

pub struct BootOptions<'c> {
    pub entrypoint_module: Option<String>,
    pub context: Context<'c>,
}

/// The function `f` of `unit` in `ctx`.
pub open spec fn function_of(ctx: Context, unit: Current, f: int) -> Option<Function> {
    match unit {
        Current::Module(m) => if m < ctx.modules_spec().len() && 0 <= f < ctx.modules_spec()[m as int].functions@.len() {
            Some(ctx.modules_spec()[m as int].functions@[f])
        } else {
            None
        },
        Current::Class(c) => if c < ctx.classes_spec().len() && 0 <= f < ctx.classes_spec()[c as int].methods@.len() {
            Some(ctx.classes_spec()[c as int].methods@[f])
        } else {
            None
        },
    }
}

/// A frame that can be resumed: its function exists.
pub open spec fn frame_ok(ctx: Context, fr: Frame) -> bool {
    function_of(ctx, fr.unit, fr.function as int) is Some
}

/// A virtual machine running one program.
pub struct Runtime<'c> {
    ctx: Context<'c>,
    ip: usize,
    unit: Current,
    function: usize,
    local: Local,
    heap: Heap,
    stack: Stack,
    call_stack: Vec<Frame>,
    tick: u64,
    pending: Option<Pending>,
}

impl<'c> Runtime<'c> {
    pub closed spec fn heap_spec(&self) -> Heap {
        self.heap
    }

    pub closed spec fn stack_spec(&self) -> Seq<Value> {
        self.stack@
    }

    pub closed spec fn local_spec(&self) -> Local {
        self.local
    }

    pub closed spec fn depth(&self) -> nat {
        self.call_stack@.len()
    }

    pub closed spec fn is_pending(&self) -> bool {
        self.pending is Some
    }

    pub closed spec fn pending_spec(&self) -> Option<Pending> {
        self.pending
    }

    /// Instructions run since the last collection.
    pub closed spec fn tick_spec(&self) -> int {
        self.tick as int
    }

    /// The next instruction runs without a collection before it.
    pub open spec fn no_collection(&self) -> bool {
        self.tick_spec() + 1 < GC_TICK
    }

    pub closed spec fn unit_spec(&self) -> Current {
        self.unit
    }

    pub closed spec fn function_spec(&self) -> usize {
        self.function
    }

    pub closed spec fn frames(&self) -> Seq<Frame> {
        self.call_stack@
    }

    pub closed spec fn context_spec(&self) -> Context<'c> {
        self.ctx
    }

    /// The stack trace: the running unit, function and instruction pointer, then each saved
    /// caller's unit, function and return address, the most recent last.
    pub closed spec fn trace_spec(&self) -> Seq<(Seq<char>, Seq<char>, usize)> {
        seq![(unit_name_of(self.ctx, self.unit), self.current_function().name@, self.ip)] + self.call_stack@.map_values(
            |fr: Frame|
                (
                    unit_name_of(self.ctx, fr.unit),
                    function_of(self.ctx, fr.unit, fr.function as int)->Some_0.name@,
                    fr.return_address,
                ),
        )
    }

    /// The function that runs.
    pub closed spec fn current_function(&self) -> Function {
        function_of(self.ctx, self.unit, self.function as int)->Some_0
    }

    pub closed spec fn frames_ok(&self) -> bool {
        &&& forall|i: int| 0 <= i < self.call_stack@.len() ==> frame_ok(self.ctx, #[trigger] self.call_stack@[i])
        &&& forall|i: int| 0 <= i < self.call_stack@.len() ==> (#[trigger] self.call_stack@[i]).local_frame <= self.local.base_spec()
        &&& forall|i: int, j: int| 0 <= i <= j < self.call_stack@.len() ==> (#[trigger] self.call_stack@[i]).local_frame <= (#[trigger] self.call_stack@[j]).local_frame
    }

    /// The machine is consistent: its function exists, its values refer to live objects of
    /// their kind, and each saved frame can be resumed.
    pub closed spec fn wf(&self) -> bool {
        &&& self.ctx.wf()
        &&& function_of(self.ctx, self.unit, self.function as int) is Some
        &&& self.stack.wf()
        &&& self.local.wf()
        &&& self.heap.wf()
        &&& self.heap.valid_values(self.stack@)
        &&& self.heap.valid_values(self.local.values())
        &&& self.frames_ok()
        &&& self.tick < GC_TICK
    }
}

proof fn lemma_prims_valid(heap: Heap, s: Seq<Value>, t: Seq<Value>)
    requires
        heap.valid_values(s),
        prims_over(s, t),
    ensures
        heap.valid_values(t),
{
    assert forall|i: int| 0 <= i < t.len() implies heap.valid_value(#[trigger] t[i]) by {
        if i < s.len() && t[i] == s[i] {
            assert(heap.valid_value(s[i]));
        }
    }
}

proof fn lemma_valid_push(heap: Heap, s: Seq<Value>, v: Value)
    requires
        heap.valid_values(s),
        heap.valid_value(v),
    ensures
        heap.valid_values(s.push(v)),
{
    assert forall|i: int| 0 <= i < s.push(v).len() implies heap.valid_value(#[trigger] s.push(v)[i]) by {
        if i < s.len() {
            assert(s.push(v)[i] == s[i]);
        }
    }
}

proof fn lemma_valid_prefix(heap: Heap, s: Seq<Value>, n: int)
    requires
        heap.valid_values(s),
        0 <= n <= s.len(),
    ensures
        heap.valid_values(s.subrange(0, n)),
{
    assert forall|i: int| 0 <= i < n implies heap.valid_value(#[trigger] s.subrange(0, n)[i]) by {
        assert(s.subrange(0, n)[i] == s[i]);
    }
}

proof fn lemma_valid_update(heap: Heap, s: Seq<Value>, k: int, v: Value)
    requires
        heap.valid_values(s),
        heap.valid_value(v),
        0 <= k < s.len(),
    ensures
        heap.valid_values(s.update(k, v)),
{
    assert forall|i: int| 0 <= i < s.len() implies heap.valid_value(#[trigger] s.update(k, v)[i]) by {
        if i != k {
            assert(s.update(k, v)[i] == s[i]);
        }
    }
}

/// Values valid in one heap are valid in another that keeps them all.
proof fn lemma_valid_grow(h1: Heap, h2: Heap, s: Seq<Value>)
    requires
        h1.valid_values(s),
        forall|x: Value| h1.valid_value(x) ==> #[trigger] h2.valid_value(x),
    ensures
        h2.valid_values(s),
{
    assert forall|i: int| 0 <= i < s.len() implies h2.valid_value(#[trigger] s[i]) by {
        assert(h1.valid_value(s[i]));
    }
}


impl<'c> Runtime<'c> {
    /// Only the instruction pointer may differ from `other`.
    pub closed spec fn same_but_ip(&self, other: &Runtime) -> bool {
        &&& self.ctx == other.ctx
        &&& self.unit == other.unit
        &&& self.function == other.function
        &&& self.local == other.local
        &&& self.heap == other.heap
        &&& self.stack == other.stack
        &&& self.call_stack == other.call_stack
        &&& self.tick == other.tick
        &&& self.pending == other.pending
    }

    /// The bytecode of the running function; a built-in has none.
    fn code(&self) -> (r: Option<&'c Vec<u8>>)
        requires
            self.wf(),
        ensures
            r matches Some(b) ==> function_of(self.ctx, self.unit, self.function as int)->Some_0.code == Code::Bytecode(*b),
            r is None ==> function_of(self.ctx, self.unit, self.function as int)->Some_0.code is Native,
    {
        let f: &Function = match self.unit {
            Current::Module(m) => &self.ctx.modules()[m].functions[self.function],
            Current::Class(c) => &self.ctx.classes()[c].methods[self.function],
        };
        match &f.code {
            Code::Bytecode(b) => Some(b),
            Code::Native => None,
        }
    }

    fn fetch_u8(&mut self) -> (r: Result<u8, Error>)
        requires
            old(self).wf(),
        ensures
            final(self).wf(),
            final(self).same_but_ip(old(self)),
            r is Err ==> r == Err::<u8, Error>(Error::MalformedModule),
            old(self).next_opcode() matches Some(b) ==> r == Ok::<u8, Error>(b),
            r matches Ok(x) ==> old(self).next_opcode() == Some(x),
            r is Ok ==> final(self).ip == old(self).ip + 1,
    {
        let x = match self.code() {
            Some(b) => {
                if self.ip < b.len() {
                    b[self.ip]
                } else {
                    return Err(Error::MalformedModule);
                }
            },
            None => {
                return Err(Error::MalformedModule);
            },
        };
        self.ip = self.ip + 1;
        Ok(x)
    }

    /// Two bytes, high one first.
    fn fetch_u16(&mut self) -> (r: Result<u16, Error>)
        requires
            old(self).wf(),
        ensures
            final(self).wf(),
            final(self).same_but_ip(old(self)),
            r is Err ==> r == Err::<u16, Error>(Error::MalformedModule),
            old(self).code_byte(old(self).ip_spec()) is Some && old(self).code_byte(old(self).ip_spec() + 1) is Some
                ==> r is Ok,
            r matches Ok(v) ==> v as int == old(self).operand_u16(old(self).ip_spec()) && final(self).ip_spec()
                == old(self).ip_spec() + 2,
    {
        let hi = self.fetch_u8()?;
        let lo = self.fetch_u8()?;
        Ok((hi as u16) * 256 + lo as u16)
    }

    /// The entry `index` of the running unit's pool.
    fn constant(&self, index: usize) -> (r: Result<&PoolEntry, Error>)
        requires
            self.wf(),
        ensures
            r is Err <==> index >= self.pool().len(),
            r is Err ==> r == Err::<&PoolEntry, Error>(Error::InvalidConstantPoolEntry(index)),
            r matches Ok(e) ==> *e == self.pool()[index as int],
    {
        let pool: &Vec<PoolEntry> = match self.unit {
            Current::Module(m) => &self.ctx.modules()[m].constants,
            Current::Class(c) => &self.ctx.classes()[c].constants,
        };
        if index < pool.len() {
            Ok(&pool[index])
        } else {
            Err(Error::InvalidConstantPoolEntry(index))
        }
    }

    /// The name of a unit.
    fn unit_name(&self, unit: Current) -> (r: String)
        requires
            self.wf(),
            unit matches Current::Module(m) ==> m < self.ctx.modules_spec().len(),
            unit matches Current::Class(c) ==> c < self.ctx.classes_spec().len(),
        ensures
            r@ == unit_name_of(self.ctx, unit),
    {
        match unit {
            Current::Module(m) => self.ctx.modules()[m].name.clone(),
            Current::Class(c) => self.ctx.classes()[c].name.clone(),
        }
    }

    /// Pushes `v`; fails where the stack is full.
    fn push_checked(&mut self, v: Value) -> (r: Result<(), Error>)
        requires
            old(self).wf(),
            old(self).heap.valid_value(v),
        ensures
            final(self).wf(),
            final(self).same_but_stack(old(self)),
            r is Ok ==> final(self).stack@ == old(self).stack@.push(v),
            r is Err ==> r == Err::<(), Error>(Error::StackOverflow) && final(self).stack@ == old(self).stack@,
            r is Err <==> old(self).stack@.len() >= STACK_SIZE,
            r is Err ==> *final(self) == *old(self),
    {
        if self.stack.is_full() {
            return Err(Error::StackOverflow);
        }
        proof {
            lemma_valid_push(self.heap, self.stack@, v);
        }
        self.stack.push(v);
        Ok(())
    }

    /// Only the operand stack may differ from `other`.
    pub closed spec fn same_but_stack(&self, other: &Runtime) -> bool {
        &&& self.ctx == other.ctx
        &&& self.ip == other.ip
        &&& self.unit == other.unit
        &&& self.function == other.function
        &&& self.local == other.local
        &&& self.heap == other.heap
        &&& self.call_stack == other.call_stack
        &&& self.tick == other.tick
        &&& self.pending == other.pending
    }
}

impl<'c> Runtime<'c> {
    /// Enters the function `fi` of `unit`: a new local frame of its size, then the arguments
    /// popped into it, the last one from the top, after the receiver in slot 0 where there is
    /// one. For a constructor the receiver is also left on the operand stack. A built-in stops
    /// the machine with a `Native` event.
    fn enter(&mut self, unit: Current, fi: usize, receiver: Option<Value>, push_receiver: bool) -> (r: Result<
        Option<Event>,
        Error,
    >)
        requires
            old(self).wf(),
            old(self).pending is None,
            function_of(old(self).ctx, unit, fi as int) is Some,
            receiver matches Some(v) ==> old(self).heap.valid_value(v),
            push_receiver ==> receiver is Some,
        ensures
            final(self).wf(),
            r matches Ok(None) ==> final(self).pending is None,
            r is Err ==> final(self).pending is None,
            r matches Ok(Some(e)) ==> (e is Native && final(self).pending == Some(Pending::Native)),
            r is Ok ==> final(self).local.values().len() == old(self).local.values().len()
                + function_of(old(self).ctx, unit, fi as int)->Some_0.locals,
            r is Ok ==> final(self).call_stack@.len() == old(self).call_stack@.len() + 1,
            r is Ok ==> final(self).unit == unit && final(self).function == fi && final(self).ctx == old(self).ctx,
            final(self).heap == old(self).heap,
            Runtime::can_enter(old(self), unit, fi, receiver, push_receiver) ==> r is Ok
                && Runtime::entered(old(self), final(self), unit, fi, receiver, push_receiver),
            !Runtime::can_enter(old(self), unit, fi, receiver, push_receiver) ==> r is Err && *final(self) == *old(self),
    {
        let f: &Function = match unit {
            Current::Module(m) => &self.ctx.modules()[m].functions[fi],
            Current::Class(c) => &self.ctx.classes()[c].methods[fi],
        };
        let locals = f.locals as usize;
        let arguments = f.arguments as usize;
        let native = match &f.code {
            Code::Native => true,
            Code::Bytecode(_) => false,
        };
        let first: usize = if receiver.is_some() { 1 } else { 0 };
        if locals < arguments + first {
            return Err(Error::MalformedModule);
        }
        self.stack.check_underflow(arguments)?;
        if push_receiver && arguments == 0 && self.stack.is_full() {
            return Err(Error::StackOverflow);
        }
        if self.local.len() > usize::MAX - locals {
            return Err(Error::StackOverflow);
        }
        let ghost old_len = self.local.values().len();
        let caller_base = self.local.push_frame(locals);
        proof {
            assert forall|i: int| 0 <= i < self.local.values().len() implies self.heap.valid_value(#[trigger] self.local.values()[i]) by {
                if i < old_len {
                    assert(self.local.values()[i] == old(self).local.values()[i]);
                } else {
                    assert(self.local.values()[i] == crate::local::zeros(locals as nat)[i - old_len]);
                    assert(crate::value::tag_of(crate::value::word_of(2, crate::value::int_payload(0))) == 2) by {
                        crate::value::lemma_int_payload(0);
                        crate::value::lemma_word_of(2, crate::value::int_payload(0));
                    }
                }
            }
        }
        match receiver {
            Some(v) => {
                proof {
                    lemma_valid_update(self.heap, self.local.values(), self.local.base_spec() as int, v);
                }
                self.local.store(0, v);
            },
            None => {},
        }
        let ghost s_start = self.stack@;
        let mut i: usize = arguments;
        while i > 0
            invariant
                i <= arguments,
                self.stack.wf(),
                self.stack@.len() >= i,
                self.stack@.len() == s_start.len() - (arguments - i),
                s_start.len() >= arguments,
                self.local.wf(),
                self.local.base_spec() == old_len,
                self.local.values().len() == old_len + locals,
                first + arguments <= locals,
                self.heap == old(self).heap,
                self.ctx == old(self).ctx,
                self.call_stack == old(self).call_stack,
                self.ip == old(self).ip,
                self.unit == old(self).unit,
                self.function == old(self).function,
                self.pending == old(self).pending,
                self.tick == old(self).tick,
                self.heap.valid_values(self.stack@),
                self.heap.valid_values(self.local.values()),
                self.stack@ == s_start.subrange(0, self.stack@.len() as int),
                forall|j: int| 0 <= j < old_len ==> #[trigger] self.local.values()[j] == old(self).local.values()[j],
                receiver matches Some(rv) ==> self.local.values()[old_len as int] == rv,
                forall|k: int| 0 <= k < arguments ==> #[trigger] self.local.values()[old_len + first + k] == (if k >= i {
                    s_start[s_start.len() - arguments + k]
                } else {
                    Value::of_int(0)
                }),
                forall|j: int| old_len + first + arguments <= j < old_len + locals ==> #[trigger] self.local.values()[j]
                    == Value::of_int(0),
                s_start == old(self).stack@,
                first == (if receiver is Some { 1usize } else { 0usize }),
            decreases i,
        {
            i = i - 1;
            let ghost s0 = self.stack@;
            let v = self.stack.pop_unchecked();
            proof {
                assert(self.heap.valid_value(s0[s0.len() - 1]));
                lemma_valid_prefix(self.heap, s0, s0.len() - 1);
                lemma_valid_update(self.heap, self.local.values(), self.local.base_spec() + first + i, v);
                assert(self.stack@ =~= s_start.subrange(0, self.stack@.len() as int));
            }
            self.local.store(first + i, v);
            proof {
                assert(v == s_start[s_start.len() - arguments + i]);
            }
        }
        if push_receiver {
            match receiver {
                Some(v) => {
                    proof {
                        lemma_valid_push(self.heap, self.stack@, v);
                    }
                    self.stack.push(v);
                },
                None => {},
            }
        }
        let frame = Frame { return_address: self.ip, local_frame: caller_base, unit: self.unit, function: self.function };
        let ghost cs0 = self.call_stack@;
        self.call_stack.push(frame);
        self.ip = 0;
        self.unit = unit;
        self.function = fi;
        proof {
            assert(cs0 == old(self).call_stack@);
            assert(self.ctx == old(self).ctx);
            assert(frame.local_frame == old(self).local.base_spec());
            assert(frame_ok(self.ctx, frame));
            assert forall|k: int| 0 <= k < self.call_stack@.len() implies frame_ok(self.ctx, #[trigger] self.call_stack@[k]) by {
                if k < cs0.len() {
                    assert(self.call_stack@[k] == cs0[k]);
                    assert(frame_ok(old(self).ctx, old(self).call_stack@[k]));
                } else {
                    assert(self.call_stack@[k] == frame);
                }
            }
            assert forall|k: int| 0 <= k < self.call_stack@.len() implies (#[trigger] self.call_stack@[k]).local_frame <= self.local.base_spec() by {
                if k < cs0.len() {
                    assert(self.call_stack@[k] == cs0[k]);
                    assert(old(self).call_stack@[k].local_frame <= old(self).local.base_spec());
                } else {
                    assert(self.call_stack@[k] == frame);
                }
            }
            assert forall|a: int, b: int| 0 <= a <= b < self.call_stack@.len() implies (#[trigger] self.call_stack@[a]).local_frame <= (#[trigger] self.call_stack@[b]).local_frame by {
                if b < cs0.len() {
                    assert(self.call_stack@[a] == cs0[a] && self.call_stack@[b] == cs0[b]);
                } else if a < cs0.len() {
                    assert(self.call_stack@[a] == cs0[a]);
                }
            }
        }
        proof {
            let l = self.local.values();
            assert(l.subrange(0, old_len as int) =~= old(self).local.values());
            assert forall|k: int| 0 <= k < arguments implies #[trigger] l[old_len + first + k] == s_start[s_start.len() - arguments + k] by {
                assert(l[old_len + first + k] == (if k >= 0 { s_start[s_start.len() - arguments + k] } else { Value::of_int(0) }));
            }
            if push_receiver {
                assert(s_start.subrange(0, s_start.len() - arguments) == drop_top(s_start, arguments as int));
            } else {
                assert(self.stack@ =~= drop_top(s_start, arguments as int));
            }
            assert(Runtime::entered(old(self), self, unit, fi, receiver, push_receiver));
        }
        if native {
            let e = Event::Native { unit: self.unit_name(unit), function: self.function_name() };
            self.pending = Some(Pending::Native);
            return Ok(Some(e));
        }
        Ok(None)
    }

    /// The name of the running function.
    fn function_name(&self) -> (r: String)
        requires
            self.wf(),
        ensures
            r@ == self.current_function().name@,
    {
        match self.unit {
            Current::Module(m) => self.ctx.modules()[m].functions[self.function].name.clone(),
            Current::Class(c) => self.ctx.classes()[c].methods[self.function].name.clone(),
        }
    }

    /// Goes back to the caller and closes the callee's local frame. With no caller the program ends.
    fn do_return(&mut self) -> (r: Option<Event>)
        requires
            old(self).wf(),
            old(self).pending is None,
        ensures
            final(self).wf(),
            final(self).heap == old(self).heap,
            final(self).stack == old(self).stack,
            old(self).call_stack@.len() == 0 ==> (r matches Some(e) && e is Halted && final(self).pending == Some(Pending::Halted)),
            old(self).call_stack@.len() > 0 ==> r is None && final(self).pending is None
                && final(self).local.values().len() == old(self).local.base_spec()
                && final(self).local.values() == old(self).local.values().subrange(0, old(self).local.base_spec() as int)
                && final(self).local.base_spec() == old(self).call_stack@.last().local_frame
                && final(self).call_stack@ == old(self).call_stack@.drop_last()
                && final(self).ip == old(self).call_stack@.last().return_address
                && final(self).unit == old(self).call_stack@.last().unit
                && final(self).function == old(self).call_stack@.last().function,
            final(self).ctx == old(self).ctx,
    {
        match self.call_stack.pop() {
            None => {
                self.pending = Some(Pending::Halted);
                Some(Event::Halted)
            },
            Some(frame) => {
                proof {
                    assert(old(self).call_stack@[old(self).call_stack@.len() - 1] == frame);
                    assert(frame_ok(self.ctx, frame));
                }
                let ghost vals = self.local.values();
                self.local.pop_frame(frame.local_frame);
                self.ip = frame.return_address;
                self.unit = frame.unit;
                self.function = frame.function;
                proof {
                    lemma_valid_prefix(self.heap, vals, old(self).local.base_spec() as int);
                    let cs = self.call_stack@;
                    assert forall|k: int| 0 <= k < cs.len() implies frame_ok(self.ctx, #[trigger] cs[k]) by {
                        assert(cs[k] == old(self).call_stack@[k]);
                    }
                    assert forall|k: int| 0 <= k < cs.len() implies (#[trigger] cs[k]).local_frame <= self.local.base_spec() by {
                        assert(cs[k] == old(self).call_stack@[k]);
                        assert(old(self).call_stack@[k].local_frame <= old(self).call_stack@[old(self).call_stack@.len() - 1].local_frame);
                    }
                    assert forall|a: int, b: int| 0 <= a <= b < cs.len() implies (#[trigger] cs[a]).local_frame <= (#[trigger] cs[b]).local_frame by {
                        assert(cs[a] == old(self).call_stack@[a] && cs[b] == old(self).call_stack@[b]);
                    }
                }
                None
            },
        }
    }
}

/// A pool entry that names something: it cannot be pushed.
pub open spec fn is_reference_entry(e: PoolEntry) -> bool {
    e is Module || e is Function || e is Class || e is Field
}

/// The instructions that may create an object.
pub open spec fn allocates(op: u8) -> bool {
    op == opcode::LOADCONST || op == opcode::NEW_ARRAY || op == opcode::NEW_DICT || op == opcode::NEW
}

impl<'c> Runtime<'c> {
    /// The byte `k` of the running function's code, where there is one.
    pub closed spec fn code_byte(&self, k: int) -> Option<u8> {
        match function_of(self.ctx, self.unit, self.function as int) {
            Some(f) => match f.code {
                Code::Bytecode(b) => if 0 <= k < b@.len() {
                    Some(b@[k])
                } else {
                    None
                },
                Code::Native => None,
            },
            None => None,
        }
    }

    pub closed spec fn ip_spec(&self) -> int {
        self.ip as int
    }

    /// The two bytes from `k` on, read as a big-endian number.
    pub open spec fn operand_u16(&self, k: int) -> int {
        self.code_byte(k)->Some_0 as int * 256 + self.code_byte(k + 1)->Some_0 as int
    }

    /// The byte at the instruction pointer, where there is one.
    pub open spec fn next_opcode(&self) -> Option<u8> {
        self.code_byte(self.ip_spec())
    }

    /// `LOADCONST` of the entry `i` fails: there is none, or it names something.
    pub open spec fn pool_rejects(&self, i: int) -> bool {
        i >= self.pool().len() || is_reference_entry(self.pool()[i])
    }

    /// The constant pool of the running unit.
    pub closed spec fn pool(&self) -> Seq<PoolEntry> {
        match self.unit {
            Current::Module(m) => self.ctx.modules_spec()[m as int].constants@,
            Current::Class(c) => self.ctx.classes_spec()[c as int].constants@,
        }
    }

    /// The operations that touch the operand stack alone. `Ok(false)` where `op` is not one.
    fn exec_stack_op(&mut self, op: u8) -> (r: Result<bool, Error>)
        requires
            old(self).wf(),
        ensures
            is_operand_local_opcode(op) ==> r == Ok::<bool, Error>(false),
            op == opcode::ARRAY_GET || op == opcode::ARRAY_SET || op == opcode::NEW_ARRAY || op == opcode::GET_FIELD || op == opcode::SET_FIELD ==> r == Ok::<bool, Error>(false),
            load_slot(op) is Some || store_slot(op) is Some ==> r == Ok::<bool, Error>(false),
            is_branch_opcode(op) ==> r == Ok::<bool, Error>(false),
            is_stack_opcode(op) ==> r != Ok::<bool, Error>(false),
            r == Ok::<bool, Error>(false) ==> *final(self) == *old(self),
            op == opcode::CALL || op == opcode::CALL_METHOD || op == opcode::NEW || op == opcode::LOADCONST || op == opcode::TAILCALL ==> r == Ok::<bool, Error>(false),
            final(self).wf(),
            final(self).same_but_stack(old(self)),
            op == opcode::POP && old(self).stack@.len() == 0 ==> r == Err::<bool, Error>(Error::StackUnderflow),
            (op == opcode::IDIV || op == opcode::IREM) && crate::stack::top_two_ints(old(self).stack@)
                && old(self).stack@.last().spec_integer() == 0 ==> r == Err::<bool, Error>(Error::DivideByZero)
                && final(self).stack@ == old(self).stack@,
            r is Ok && (op == opcode::IADD || op == opcode::ISUB || op == opcode::IMUL || op == opcode::IDIV
                || op == opcode::IREM || op == opcode::POP || op == opcode::ICONST_0 || op == opcode::DUP) ==> r == Ok::<bool, Error>(true),
            stack_opcode_post(op, old(self).stack@, final(self).stack@, r),
    {
        let ghost s0 = self.stack@;
        let res: Result<(), Error> = if op == opcode::POP {
            match self.stack.pop() {
                Ok(_) => Ok(()),
                Err(e) => Err(e),
            }
        } else if op == opcode::DUP {
            let top = self.stack.peek()?;
            proof {
                assert(self.heap.valid_value(self.stack@[self.stack@.len() - 1]));
            }
            return match self.push_checked(top) {
                Ok(()) => Ok(true),
                Err(e) => Err(e),
            };
        } else if op == opcode::ICONST_0 || op == opcode::ICONST_1 || op == opcode::FCONST_0
            || op == opcode::FCONST_1 || op == opcode::CONST_NULL {
            if self.stack.is_full() {
                return Err(Error::StackOverflow);
            }
            if op == opcode::ICONST_0 {
                self.stack.iconst_0();
            } else if op == opcode::ICONST_1 {
                self.stack.iconst_1();
            } else if op == opcode::FCONST_0 {
                self.stack.fconst_0();
            } else if op == opcode::FCONST_1 {
                self.stack.fconst_1();
            } else {
                let n = Value::null();
                proof {
                    lemma_valid_push(self.heap, self.stack@, n);
                }
                self.stack.push(n);
                return Ok(true);
            }
            Ok(())
        } else if op == opcode::IADD {
            self.stack.iadd()
        } else if op == opcode::ISUB {
            self.stack.isub()
        } else if op == opcode::IMUL {
            self.stack.imul()
        } else if op == opcode::IDIV {
            self.stack.idiv()
        } else if op == opcode::IREM {
            self.stack.irem()
        } else if op == opcode::IAND {
            self.stack.iand()
        } else if op == opcode::IOR {
            self.stack.ior()
        } else if op == opcode::IXOR {
            self.stack.ixor()
        } else if op == opcode::ISHL {
            self.stack.ishl()
        } else if op == opcode::ISHR {
            self.stack.ishr()
        } else if op == opcode::IUSHR {
            self.stack.iushr()
        } else if op == opcode::INEG {
            self.stack.ineg()
        } else if op == opcode::IEXP {
            self.stack.iexp()
        } else if op == opcode::IS_ZERO {
            self.stack.is_zero()
        } else if op == opcode::FNEG {
            self.stack.fneg()
        } else if op == opcode::BADD {
            self.stack.badd()
        } else if op == opcode::BSUB {
            self.stack.bsub()
        } else if op == opcode::BMUL {
            self.stack.bmul()
        } else if op == opcode::BDIV {
            self.stack.bdiv()
        } else if op == opcode::BREM {
            self.stack.brem()
        } else if op == opcode::BAND {
            self.stack.band()
        } else if op == opcode::BOR {
            self.stack.bor()
        } else if op == opcode::BXOR {
            self.stack.bxor()
        } else if op == opcode::BSHL {
            self.stack.bshl()
        } else if op == opcode::BSHR {
            self.stack.bshr()
        } else if op == opcode::BNEG {
            self.stack.bneg()
        } else {
            return Ok(false);
        };
        proof {
            lemma_prims_valid(self.heap, s0, self.stack@);
        }
        match res {
            Ok(()) => Ok(true),
            Err(e) => Err(e),
        }
    }
}

impl<'c> Runtime<'c> {
    /// The call and the objects are as in `other`.
    pub closed spec fn same_frame(&self, other: &Runtime) -> bool {
        &&& self.ctx == other.ctx
        &&& self.unit == other.unit
        &&& self.function == other.function
        &&& self.heap == other.heap
        &&& self.call_stack == other.call_stack
        &&& self.tick == other.tick
        &&& self.pending == other.pending
        &&& self.local.base_spec() == other.local.base_spec()
        &&& self.local.values().len() == other.local.values().len()
    }

    /// Fails with `IndexOutOfBounds` where the current frame has no slot `index`.
    fn check_slot(&self, index: usize) -> (r: Result<(), Error>)
        requires
            self.wf(),
        ensures
            r is Ok <==> self.local.in_frame(index as int),
            r is Err ==> r == Err::<(), Error>(Error::IndexOutOfBounds),
    {
        if self.local.has_slot(index) {
            Ok(())
        } else {
            Err(Error::IndexOutOfBounds)
        }
    }

    fn push_local(&mut self, index: usize) -> (r: Result<(), Error>)
        requires
            old(self).wf(),
        ensures
            final(self).wf(),
            final(self).same_frame(old(self)),
            final(self).ip == old(self).ip,
            final(self).local == old(self).local,
            load_post(old(self).local, index as int, old(self).stack@, final(self).stack@, r),
    {
        self.check_slot(index)?;
        let v = self.local.load(index);
        proof {
            assert(self.heap.valid_value(self.local.values()[self.local.base_spec() + index]));
        }
        self.push_checked(v)
    }

    fn store_local(&mut self, index: usize) -> (r: Result<(), Error>)
        requires
            old(self).wf(),
        ensures
            final(self).wf(),
            final(self).same_frame(old(self)),
            final(self).ip == old(self).ip,
            store_post(old(self).local, final(self).local, index as int, old(self).stack@, final(self).stack@, r),
    {
        self.check_slot(index)?;
        let ghost s0 = self.stack@;
        let v = self.stack.pop()?;
        proof {
            assert(self.heap.valid_value(s0[s0.len() - 1]));
            crate::runtime::lemma_valid_prefix(self.heap, s0, s0.len() - 1);
            lemma_valid_update(self.heap, self.local.values(), self.local.base_spec() + index, v);
        }
        self.local.store(index, v);
        Ok(())
    }

    /// The operations on locals and the ones that push an operand of the code.
    fn exec_local_op(&mut self, op: u8) -> (r: Result<bool, Error>)
        requires
            old(self).wf(),
        ensures
            op == opcode::ARRAY_GET || op == opcode::ARRAY_SET || op == opcode::NEW_ARRAY || op == opcode::GET_FIELD || op == opcode::SET_FIELD ==> r == Ok::<bool, Error>(false),
            is_branch_opcode(op) ==> r == Ok::<bool, Error>(false),
            is_stack_opcode(op) ==> r == Ok::<bool, Error>(false),
            r == Ok::<bool, Error>(false) ==> *final(self) == *old(self),
            op == opcode::CALL || op == opcode::CALL_METHOD || op == opcode::NEW || op == opcode::LOADCONST || op == opcode::TAILCALL ==> r == Ok::<bool, Error>(false),
            final(self).wf(),
            final(self).same_frame(old(self)),
            load_slot(op) is Some ==> load_post(old(self).local, load_slot(op)->Some_0, old(self).stack@,
                final(self).stack@, r) && final(self).local == old(self).local && final(self).ip == old(self).ip,
            store_slot(op) is Some ==> store_post(old(self).local, final(self).local, store_slot(op)->Some_0,
                old(self).stack@, final(self).stack@, r) && final(self).ip == old(self).ip,
            (load_slot(op) is Some || store_slot(op) is Some) ==> r != Ok::<bool, Error>(false),
            is_operand_local_opcode(op) ==> r != Ok::<bool, Error>(false) && operand_local_post(old(self), old(self).ip_spec(), op,
                old(self).local, final(self).local, old(self).stack@, final(self).stack@, final(self).ip_spec(), r),
    {
        if op == opcode::LOAD {
            let i = self.fetch_u8()?;
            self.push_local(i as usize)?;
        } else if op == opcode::LOAD_0 {
            self.push_local(0)?;
        } else if op == opcode::LOAD_1 {
            self.push_local(1)?;
        } else if op == opcode::LOAD_2 {
            self.push_local(2)?;
        } else if op == opcode::LOAD_3 {
            self.push_local(3)?;
        } else if op == opcode::STORE {
            let i = self.fetch_u8()?;
            self.store_local(i as usize)?;
        } else if op == opcode::STORE_0 {
            self.store_local(0)?;
        } else if op == opcode::STORE_1 {
            self.store_local(1)?;
        } else if op == opcode::STORE_2 {
            self.store_local(2)?;
        } else if op == opcode::STORE_3 {
            self.store_local(3)?;
        } else if op == opcode::IINC {
            let i = self.fetch_u8()?;
            let d = self.fetch_u8()?;
            self.check_slot(i as usize)?;
            let ghost l0 = self.local.values();
            self.local.iinc(i as usize, (d as i8) as i32)?;
            proof {
                let k = self.local.base_spec() + i;
                let nv = self.local.values()[k];
                assert(self.local.values() == l0.update(k, nv));
                let x = vstd::wrapping::i32_specs::wrapping_add(l0[k].spec_integer(), (d as i8) as i32);
                crate::value::lemma_int_payload(x);
                crate::value::lemma_word_of(2, crate::value::int_payload(x));
                assert(nv == Value::of_int(x));
                assert(nv.spec_tag() == 2);
                lemma_valid_update(self.heap, l0, k, nv);
            }
        } else if op == opcode::I_PUSH_BYTE {
            let b = self.fetch_u8()?;
            if self.stack.is_full() {
                return Err(Error::StackOverflow);
            }
            let ghost s0 = self.stack@;
            self.stack.push_byte(b);
            proof {
                lemma_prims_valid(self.heap, s0, self.stack@);
            }
        } else if op == opcode::I_PUSH_SHORT {
            let v = self.fetch_u16()?;
            if self.stack.is_full() {
                return Err(Error::StackOverflow);
            }
            let ghost s0 = self.stack@;
            self.stack.push_short(v);
            proof {
                lemma_prims_valid(self.heap, s0, self.stack@);
            }
        } else if op == opcode::PUSH_BYTE {
            let b = self.fetch_u8()?;
            let v = Value::mk_byte(b);
            self.push_checked(v)?;
        } else {
            return Ok(false);
        }
        Ok(true)
    }

    /// The jumps: the target follows the instruction as two bytes.
    fn exec_branch(&mut self, op: u8) -> (r: Result<bool, Error>)
        requires
            old(self).wf(),
        ensures
            op == opcode::ARRAY_GET || op == opcode::ARRAY_SET || op == opcode::NEW_ARRAY || op == opcode::GET_FIELD || op == opcode::SET_FIELD ==> r == Ok::<bool, Error>(false),
            is_stack_opcode(op) ==> r == Ok::<bool, Error>(false),
            r == Ok::<bool, Error>(false) ==> *final(self) == *old(self),
            op == opcode::CALL || op == opcode::CALL_METHOD || op == opcode::NEW || op == opcode::LOADCONST || op == opcode::TAILCALL ==> r == Ok::<bool, Error>(false),
            final(self).wf(),
            final(self).same_frame(old(self)),
            final(self).local == old(self).local,
            is_branch_opcode(op) ==> branch_post(old(self), old(self).ip_spec(), op, old(self).stack@, final(self).stack@,
                final(self).ip_spec(), r),
            is_branch_opcode(op) ==> r != Ok::<bool, Error>(false),
    {
        let ghost s0 = self.stack@;
        let cond: bool = if op == opcode::GOTO {
            true
        } else if op == opcode::I_IFEQ {
            self.stack.ifeq()?
        } else if op == opcode::I_IFNEQ {
            self.stack.ifneq()?
        } else if op == opcode::I_IFGT {
            self.stack.ifgt()?
        } else if op == opcode::I_IFGE {
            self.stack.ifge()?
        } else if op == opcode::I_IFLT {
            self.stack.iflt()?
        } else if op == opcode::I_IFLE {
            self.stack.ifle()?
        } else if op == opcode::IF_NULL || op == opcode::IFNOT_NULL {
            let v = self.stack.pop()?;
            if op == opcode::IF_NULL {
                !v.is_not_null()
            } else {
                v.is_not_null()
            }
        } else {
            return Ok(false);
        };
        proof {
            lemma_prims_valid(self.heap, s0, self.stack@);
            assert(cond == branch_taken(op, s0));
            assert(self.stack@ == drop_top(s0, branch_pops(op)));
            assert(self.code_byte(self.ip_spec()) == old(self).code_byte(old(self).ip_spec()));
            assert(self.code_byte(self.ip_spec() + 1) == old(self).code_byte(old(self).ip_spec() + 1));
        }
        let target = self.fetch_u16()?;
        if cond {
            self.ip = target as usize;
        }
        Ok(true)
    }
}

impl<'c> Runtime<'c> {
    /// Drops the `n` values on top.
    fn drop_values(&mut self, n: usize)
        requires
            old(self).wf(),
            old(self).stack@.len() >= n,
        ensures
            final(self).wf(),
            final(self).same_but_stack(old(self)),
            final(self).stack@ == crate::stack::drop_top(old(self).stack@, n as int),
    {
        let mut i: usize = 0;
        while i < n
            invariant
                i <= n,
                self.wf(),
                self.same_but_stack(old(self)),
                self.stack@ == crate::stack::drop_top(old(self).stack@, i as int),
                old(self).stack@.len() >= n,
            decreases n - i,
        {
            let ghost s0 = self.stack@;
            self.stack.pop_unchecked();
            proof {
                lemma_prims_valid(self.heap, s0, self.stack@);
                assert(self.stack@ =~= crate::stack::drop_top(old(self).stack@, i + 1));
            }
            i = i + 1;
        }
    }

    /// Only the objects and the operand stack may differ from `other`.
    pub closed spec fn same_but_data(&self, other: &Runtime) -> bool {
        &&& self.ctx == other.ctx
        &&& self.unit == other.unit
        &&& self.function == other.function
        &&& self.local == other.local
        &&& self.call_stack == other.call_stack
        &&& self.tick == other.tick
        &&& self.pending == other.pending
    }

    /// After a change of the heap that keeps every valid value valid, the machine is consistent.
    proof fn lemma_heap_grew(&self, old_heap: Heap)
        requires
            old_heap.valid_values(self.stack@),
            old_heap.valid_values(self.local.values()),
            forall|x: Value| old_heap.valid_value(x) ==> #[trigger] self.heap.valid_value(x),
        ensures
            self.heap.valid_values(self.stack@),
            self.heap.valid_values(self.local.values()),
    {
        lemma_valid_grow(old_heap, self.heap, self.stack@);
        lemma_valid_grow(old_heap, self.heap, self.local.values());
    }

    /// The instructions on objects: constants, arrays, dictionaries and fields.
    #[verifier::rlimit(100)]
    fn exec_object_op(&mut self, op: u8) -> (r: Result<bool, Error>)
        requires
            old(self).wf(),
        ensures
            is_stack_opcode(op) ==> r == Ok::<bool, Error>(false),
            r == Ok::<bool, Error>(false) ==> *final(self) == *old(self),
            op == opcode::CALL || op == opcode::CALL_METHOD || op == opcode::NEW || op == opcode::TAILCALL ==> r == Ok::<bool, Error>(false),
            final(self).wf(),
            final(self).same_but_data(old(self)),
            !allocates(op) ==> forall|h: int| #[trigger] final(self).heap.live(h) == old(self).heap.live(h),
            !allocates(op) ==> final(self).heap.objects().len() == old(self).heap.objects().len(),
            op == opcode::LOADCONST && old(self).next_opcode() is Some && old(self).pool_rejects(
                old(self).next_opcode()->Some_0 as int,
            ) ==> r == Err::<bool, Error>(
                Error::InvalidConstantPoolEntry(old(self).next_opcode()->Some_0 as usize),
            ) && final(self).stack@ == old(self).stack@ && final(self).heap == old(self).heap,
            op == opcode::LOADCONST ==> loadconst_post(old(self), old(self).ip_spec(), old(self).heap, final(self).heap,
                old(self).stack@, final(self).stack@, r),
            op == opcode::GET_FIELD && r is Ok ==> get_field_post(old(self), old(self).ip_spec(), old(self).heap,
                old(self).stack@, final(self).stack@),
            op == opcode::SET_FIELD && r is Ok ==> set_field_post(old(self), old(self).ip_spec(), old(self).heap,
                final(self).heap, old(self).stack@, final(self).stack@),
            op == opcode::ARRAY_GET ==> array_get_post(old(self).heap, old(self).stack@, final(self).stack@, r),
            op == opcode::ARRAY_SET ==> array_set_post(old(self).heap, final(self).heap, old(self).stack@, final(self).stack@, r),
            op == opcode::NEW_ARRAY ==> new_array_post(old(self).heap, final(self).heap, old(self).stack@, final(self).stack@, r),
            op == opcode::ARRAY_GET || op == opcode::ARRAY_SET || op == opcode::NEW_ARRAY ==> r != Ok::<bool, Error>(false)
                && final(self).ip == old(self).ip,
    {
        let n = self.stack.len();
        if op == opcode::LOADCONST {
            let idx = self.fetch_u8()? as usize;
            let mut text: Option<String> = None;
            let mut number: Value = Value::null();
            match self.constant(idx)? {
                PoolEntry::String(st) => {
                    text = Some(st.clone());
                },
                PoolEntry::Integer(i) => {
                    number = Value::mk_integer(*i);
                },
                PoolEntry::Float(f) => {
                    number = Value::mk_float_bits(*f);
                },
                _ => {
                    return Err(Error::InvalidConstantPoolEntry(idx));
                },
            }
            if self.stack.is_full() {
                return Err(Error::StackOverflow);
            }
            let v = match text {
                Some(st) => {
                    let ghost h0 = self.heap;
                    let v = self.heap.alloc_string(st)?;
                    proof {
                        self.lemma_heap_grew(h0);
                    }
                    v
                },
                None => number,
            };
            proof {
                crate::value::lemma_word_of(0, 0);
                lemma_valid_push(self.heap, self.stack@, v);
            }
            let ghost s1 = self.stack@;
            self.stack.push(v);
            proof {
                assert(self.stack@.subrange(0, s1.len() as int) =~= s1);
            }
        } else if op == opcode::NEW_ARRAY {
            let top = self.stack.top_with_tag(TAG_INTEGER)?;
            let ghost h0 = self.heap;
            let arr = self.heap.alloc_array(top.integer())?;
            proof {
                self.lemma_heap_grew(h0);
                lemma_valid_prefix(self.heap, self.stack@, self.stack@.len() - 1);
                lemma_valid_push(self.heap, crate::stack::drop_top(self.stack@, 1), arr);
            }
            let ghost s0 = self.stack@;
            self.stack.replace_top(arr);
            proof {
                assert(self.stack@.subrange(0, s0.len() - 1) =~= s0.subrange(0, s0.len() - 1));
                assert(self.stack@[s0.len() - 1] == arr);
            }
        } else if op == opcode::NEW_DICT {
            if self.stack.is_full() {
                return Err(Error::StackOverflow);
            }
            let ghost h0 = self.heap;
            let d = self.heap.alloc_dict()?;
            proof {
                self.lemma_heap_grew(h0);
                lemma_valid_push(self.heap, self.stack@, d);
            }
            self.stack.push(d);
        } else if op == opcode::ARRAY_GET || op == opcode::GET_DICT {
            if n < 2 {
                return Err(Error::StackUnderflow);
            }
            let target = self.stack.get(n - 2);
            let key = self.stack.get(n - 1);
            proof {
                assert(self.heap.valid_value(self.stack@[n - 2]));
                assert(self.heap.valid_value(self.stack@[n - 1]));
            }
            let v = if op == opcode::ARRAY_GET {
                if key.tag() != TAG_INTEGER {
                    return Err(Error::TypeMismatch);
                }
                self.heap.array_get(target, key.integer())?
            } else {
                self.heap.get_dict(target, key)?
            };
            self.drop_values(2);
            self.push_checked(v)?;
        } else if op == opcode::ARRAY_SET || op == opcode::SET_DICT {
            if n < 3 {
                return Err(Error::StackUnderflow);
            }
            let target = self.stack.get(n - 3);
            let key = self.stack.get(n - 2);
            let v = self.stack.get(n - 1);
            proof {
                assert(self.heap.valid_value(self.stack@[n - 3]));
                assert(self.heap.valid_value(self.stack@[n - 2]));
                assert(self.heap.valid_value(self.stack@[n - 1]));
            }
            let ghost h0 = self.heap;
            if op == opcode::ARRAY_SET {
                if key.tag() != TAG_INTEGER {
                    return Err(Error::TypeMismatch);
                }
                self.heap.array_set(target, key.integer(), v)?;
            } else {
                self.heap.set_dict(target, key, v)?;
            }
            proof {
                self.lemma_heap_grew(h0);
            }
            self.drop_values(3);
        } else if op == opcode::GET_FIELD || op == opcode::SET_FIELD {
            let idx = self.fetch_u16()? as usize;
            let field_name = match self.constant(idx)? {
                PoolEntry::Field(f) => f.clone(),
                _ => {
                    return Err(Error::InvalidConstantPoolEntry(idx));
                },
            };
            let need: usize = if op == opcode::GET_FIELD { 1 } else { 2 };
            if n < need {
                return Err(Error::StackUnderflow);
            }
            let target = self.stack.get(n - need);
            proof {
                assert(self.heap.valid_value(self.stack@[n - need]));
            }
            let class_name = self.heap.instance(target)?.class_name.clone();
            let class = self.ctx.fetch_class(&class_name)?;
            let offset = class.field(&field_name)?.offset as usize;
            proof {
                let c = choose|c: int| 0 <= c < self.ctx.classes_spec().len() && self.ctx.classes_spec()[c] == *class
                    && class.name@ == class_name@;
                assert(field_offset_of(self.ctx, class_name@, field_name@, offset as int));
                assert(idx as int == old(self).operand_u16(old(self).ip_spec()));
                assert(self.pool() == old(self).pool());
                assert(field_name@ == field_entry_name(old(self), old(self).ip_spec()));
                assert(class_name@ == instance_at(old(self).heap, target).class_name@);
                assert(field_offset_of(old(self).context_spec(), instance_at(old(self).heap, target).class_name@,
                    field_entry_name(old(self), old(self).ip_spec()), offset as int));
            }
            if op == opcode::GET_FIELD {
                let v = self.heap.get_field_with_offset(target, offset)?;
                proof {
                    lemma_valid_prefix(self.heap, self.stack@, self.stack@.len() - 1);
                    lemma_valid_push(self.heap, crate::stack::drop_top(self.stack@, 1), v);
                }
                self.stack.replace_top(v);
                proof {
                    assert(old(self).stack@.last() == target);
                    assert(v == instance_at(old(self).heap, target).fields@[offset as int]);
                }
            } else {
                let v = self.stack.get(n - 1);
                proof {
                    assert(self.heap.valid_value(self.stack@[n - 1]));
                }
                let ghost h0 = self.heap;
                self.heap.set_field_with_offset(target, offset, v)?;
                proof {
                    self.lemma_heap_grew(h0);
                    assert(old(self).stack@[old(self).stack@.len() - 2] == target);
                    assert(old(self).stack@.last() == v);
                    assert(instance_at(self.heap, target).fields@ == instance_at(old(self).heap, target).fields@.update(offset as int, v));
                }
                self.drop_values(2);
            }
        } else {
            return Ok(false);
        }
        Ok(true)
    }
}

impl<'c> Runtime<'c> {
    /// The calls: `CALL`, `CALL_METHOD`, `NEW` and `TAILCALL`.
    #[verifier::rlimit(100)]
    fn exec_call_op(&mut self, op: u8) -> (r: Result<Option<Event>, Error>)
        requires
            old(self).wf(),
            old(self).pending is None,
        ensures
            final(self).wf(),
            r matches Ok(None) ==> final(self).pending is None,
            r is Err ==> final(self).pending is None,
            r matches Ok(Some(e)) ==> (e is Native && final(self).pending == Some(Pending::Native)),
            (op == opcode::CALL || op == opcode::CALL_METHOD || op == opcode::NEW) && r is Ok ==> {
                &&& final(self).local.values().len() == old(self).local.values().len()
                    + function_of(final(self).ctx, final(self).unit, final(self).function as int)->Some_0.locals
                &&& final(self).call_stack@.len() == old(self).call_stack@.len() + 1
            },
            op != opcode::NEW ==> final(self).heap == old(self).heap,
            op == opcode::TAILCALL ==> (Runtime::can_tailcall(old(self)) ==> r == Ok::<Option<Event>, Error>(None)
                && Runtime::tailcalled(old(self), final(self))),
            op == opcode::TAILCALL && !Runtime::can_tailcall(old(self)) ==> r is Err,
            op == opcode::CALL && r is Ok ==> exists|m: Runtime<'c>, u: Current, fi: usize|
                Runtime::same_call_state(&m, old(self)) && m.ip_spec() == old(self).ip_spec() + 4
                    && #[trigger] Runtime::entered(&m, final(self), u, fi, None, false),
            op == opcode::CALL_METHOD && r is Ok ==> exists|m: Runtime<'c>, u: Current, fi: usize|
                Runtime::same_call_state_but_stack(&m, old(self)) && m.ip_spec() == old(self).ip_spec() + 4
                    && old(self).stack@.len() > 0 && m.stack_spec() == drop_top(old(self).stack@, 1)
                    && #[trigger] Runtime::entered(&m, final(self), u, fi, Some(old(self).stack@.last()), false),
            op == opcode::NEW && r is Ok ==> exists|m: Runtime<'c>, u: Current, fi: usize, v: Value|
                Runtime::same_call_state(&m, old(self)) && m.ip_spec() == old(self).ip_spec() + 2
                    && v.spec_tag() == crate::value::TAG_CLASS && m.heap_spec().valid_value(v)
                    && #[trigger] Runtime::entered(&m, final(self), u, fi, Some(v), true),
    {
        if op == opcode::CALL {
            let mi = self.fetch_u16()? as usize;
            let fi = self.fetch_u16()? as usize;
            let module_name = match self.constant(mi)?.clone() {
                PoolEntry::Module(n) => n,
                _ => {
                    return Err(Error::InvalidConstantPoolEntry(mi));
                },
            };
            let function_name = match self.constant(fi)?.clone() {
                PoolEntry::Function(n) => n,
                _ => {
                    return Err(Error::InvalidConstantPoolEntry(fi));
                },
            };
            let target: usize = match self.unit {
                Current::Module(cur) => {
                    if self.ctx.modules()[cur].name == module_name {
                        cur
                    } else {
                        match find_module(self.ctx.modules(), &module_name) {
                            Some(m) => m,
                            None => {
                                return Err(Error::ModuleNotFound(module_name));
                            },
                        }
                    }
                },
                Current::Class(_) => {
                    match find_module(self.ctx.modules(), &module_name) {
                        Some(m) => m,
                        None => {
                            return Err(Error::ModuleNotFound(module_name));
                        },
                    }
                },
            };
            let f = match find_function(&self.ctx.modules()[target].functions, &function_name) {
                Some(f) => f,
                None => {
                    return Err(Error::FunctionNotFound(function_name));
                },
            };
            let ghost m = *self;
            let res = self.enter(Current::Module(target), f, None, false);
            proof {
                if res is Ok {
                    assert(Runtime::entered(&m, self, Current::Module(target), f, None, false));
                }
            }
            res
        } else if op == opcode::CALL_METHOD || op == opcode::NEW {
            let ci = self.fetch_u16()? as usize;
            let class_name = match self.constant(ci)?.clone() {
                PoolEntry::Class(n) => n,
                _ => {
                    return Err(Error::InvalidConstantPoolEntry(ci));
                },
            };
            let method_name = if op == opcode::CALL_METHOD {
                let fi = self.fetch_u16()? as usize;
                match self.constant(fi)?.clone() {
                    PoolEntry::Function(n) => n,
                    _ => {
                        return Err(Error::InvalidConstantPoolEntry(fi));
                    },
                }
            } else {
                "new".to_string()
            };
            let c = match find_class(self.ctx.classes(), &class_name) {
                Some(c) => c,
                None => {
                    return Err(Error::ClassNotFound(class_name));
                },
            };
            let f = match find_function(&self.ctx.classes()[c].methods, &method_name) {
                Some(f) => f,
                None => {
                    return Err(Error::FunctionNotFound(method_name));
                },
            };
            if op == opcode::CALL_METHOD {
                let ghost s0 = self.stack@;
                let receiver = self.stack.pop()?;
                proof {
                    assert(self.heap.valid_value(s0[s0.len() - 1]));
                    lemma_valid_prefix(self.heap, s0, s0.len() - 1);
                }
                let ghost m = *self;
                let res = self.enter(Current::Class(c), f, Some(receiver), false);
                proof {
                    if res is Ok {
                        assert(Runtime::entered(&m, self, Current::Class(c), f, Some(receiver), false));
                    }
                }
                res
            } else {
                let nfields = self.ctx.classes()[c].fields.len();
                let ghost h0 = self.heap;
                let instance = self.heap.alloc_instance(class_name, nfields)?;
                proof {
                    self.lemma_heap_grew(h0);
                }
                let ghost m = *self;
                let res = self.enter(Current::Class(c), f, Some(instance), true);
                proof {
                    if res is Ok {
                        assert(Runtime::entered(&m, self, Current::Class(c), f, Some(instance), true));
                    }
                }
                res
            }
        } else {
            let f: &Function = match self.unit {
                Current::Module(m) => &self.ctx.modules()[m].functions[self.function],
                Current::Class(c) => &self.ctx.classes()[c].methods[self.function],
            };
            let arguments = f.arguments as usize;
            if arguments > 0 {
                self.check_slot(arguments - 1)?;
            }
            self.stack.check_underflow(arguments)?;
            let mut i: usize = arguments;
            while i > 0
                invariant
                    i <= arguments,
                    self.wf(),
                    self.pending is None,
                    self.stack@.len() >= i,
                    self.heap == old(self).heap,
                    i > 0 ==> self.local.in_frame(i - 1),
                    arguments > 0 ==> self.local.in_frame(arguments - 1),
                    self.local.base_spec() == old(self).local.base_spec(),
                    self.local.values().len() == old(self).local.values().len(),
                    self.ctx == old(self).ctx,
                    self.unit == old(self).unit,
                    self.function == old(self).function,
                    self.call_stack == old(self).call_stack,
                    arguments == old(self).current_function().arguments,
                    old(self).stack@.len() >= arguments,
                    self.stack@ == old(self).stack@.subrange(0, old(self).stack@.len() - (arguments - i)),
                    forall|k: int| i <= k < arguments ==> #[trigger] self.local.values()[self.local.base_spec() + k]
                        == old(self).stack@[old(self).stack@.len() - arguments + k],
                    forall|j: int| 0 <= j < self.local.values().len() && !(self.local.base_spec() + i <= j
                        < self.local.base_spec() + arguments) ==> #[trigger] self.local.values()[j] == old(self).local.values()[j],
                decreases i,
            {
                i = i - 1;
                let ghost s0 = self.stack@;
                let v = self.stack.pop_unchecked();
                proof {
                    assert(self.heap.valid_value(s0[s0.len() - 1]));
                    lemma_prims_valid(self.heap, s0, self.stack@);
                    lemma_valid_update(self.heap, self.local.values(), self.local.base_spec() + i, v);
                    assert(self.stack@ =~= old(self).stack@.subrange(0, old(self).stack@.len() - (arguments - i)));
                    assert(v == old(self).stack@[old(self).stack@.len() - arguments + i]);
                }
                let ghost l0 = self.local.values();
                let ghost b0 = self.local.base_spec();
                self.local.store(i, v);
                proof {
                    assert(self.local.values() == l0.update(b0 + i, v));
                    assert(self.local.base_spec() == b0);
                    assert forall|k: int| i <= k < arguments implies #[trigger] self.local.values()[self.local.base_spec() + k]
                        == old(self).stack@[old(self).stack@.len() - arguments + k] by {
                        if k > i {
                            assert(self.local.values()[self.local.base_spec() + k] == l0[self.local.base_spec() + k]);
                        }
                    }
                }
            }
            self.ip = 0;
            proof {
                assert(self.stack@ =~= drop_top(old(self).stack@, arguments as int));
            }
            Ok(None)
        }
    }

    /// Runs one instruction.
    #[verifier::rlimit(100)]
    #[verifier::spinoff_prover]
    fn step(&mut self) -> (r: Result<Option<Event>, Error>)
        requires
            old(self).wf(),
            old(self).pending is None,
        ensures
            final(self).wf(),
            r is Err ==> final(self).pending is None,
            r matches Ok(None) ==> final(self).pending is None,
            r matches Ok(Some(e)) ==> final(self).pending is Some && !(e is Paused),
            old(self).one_step(final(self), r),
    {
        let ghost h_before = self.heap;
        self.tick = self.tick + 1;
        if self.tick >= GC_TICK {
            self.tick = 0;
            self.heap.gc(&self.stack, &self.local);
            proof {
                assert forall|h: int| #[trigger] self.heap.live(h) implies h_before.live(h) by {
                    h_before.lemma_reachable_live(self.stack@ + self.local.values(), h);
                }
            }
        }
        let ghost mid = *self;
        let op = self.fetch_u8()?;
        proof {
            assert(mid.next_opcode() == Some(op));
        }
        if op == opcode::HALT {
            self.pending = Some(Pending::Halted);
            return Ok(Some(Event::Halted));
        }
        if op == opcode::RETURN {
            let res = self.do_return();
            proof {
                assert(self.stack@ =~= old(self).stack@ + Seq::<Value>::empty());
            }
            return Ok(res);
        }
        if self.exec_stack_op(op)? {
            return Ok(None);
        }
        if self.exec_local_op(op)? {
            return Ok(None);
        }
        if self.exec_branch(op)? {
            return Ok(None);
        }
        proof {
            assert(self.next_opcode() == old(self).code_byte(old(self).ip_spec() + 1));
            assert(self.pool() == old(self).pool());
            assert(self.context_spec() == old(self).context_spec());
            assert(self.operand_u16(old(self).ip_spec() + 1) == old(self).operand_u16(old(self).ip_spec() + 1));
            assert(field_entry_name(self, old(self).ip_spec() + 1) == field_entry_name(old(self), old(self).ip_spec() + 1));
        }
        if self.exec_object_op(op)? {
            return Ok(None);
        }
        if op == opcode::CALL || op == opcode::CALL_METHOD || op == opcode::NEW || op == opcode::TAILCALL {
            return self.exec_call_op(op);
        }
        if op == opcode::I2F || op == opcode::F2I || op == opcode::FADD || op == opcode::FSUB
            || op == opcode::FMUL || op == opcode::FDIV || op == opcode::FREM {
            let p = if op == opcode::I2F {
                let v = self.stack.top_with_tag(TAG_INTEGER)?;
                Pending::Float(FloatOp::IntToFloat, v.integer() as u32, 0)
            } else if op == opcode::F2I {
                let v = self.stack.top_with_tag(crate::value::TAG_FLOAT)?;
                Pending::Float(FloatOp::FloatToInt, v.float_bits(), 0)
            } else {
                let (a, b) = self.stack.float_operands()?;
                let fop = if op == opcode::FADD {
                    FloatOp::Add
                } else if op == opcode::FSUB {
                    FloatOp::Sub
                } else if op == opcode::FMUL {
                    FloatOp::Mul
                } else if op == opcode::FDIV {
                    FloatOp::Div
                } else {
                    FloatOp::Rem
                };
                Pending::Float(fop, a, b)
            };
            self.pending = Some(p);
            return Ok(Some(Runtime::event_of(p)));
        }
        Err(Error::UnknownOpcode(op))
    }

    /// The event that stands for what the machine waits for.
    fn event_of(p: Pending) -> (r: Event)
        requires
            !(p is Native),
        ensures
            !(r is Paused),
    {
        match p {
            Pending::Float(op, lhs, rhs) => Event::Float { op, lhs, rhs },
            _ => Event::Halted,
        }
    }
}

impl<'c> Runtime<'c> {
    /// A machine at the start of the function `main` of the entry module (`main` where none
    /// is given), with empty stack and heap.
    pub fn boot(opts: BootOptions<'c>) -> (r: Result<Runtime<'c>, Error>)
        requires
            opts.context.wf(),
        ensures
            r matches Ok(rt) ==> rt.wf() && rt.depth() == 0 && rt.stack_spec().len() == 0
                && rt.heap_spec().objects().len() == 0 && !rt.is_pending(),
            (r matches Err(e) && e is ModuleNotFound) <==> forall|i: int|
                0 <= i < opts.context.modules_spec().len() ==> opts.context.modules_spec()[i].name@ != entry_name(opts),
            forall|i: int|
                0 <= i < opts.context.modules_spec().len() && opts.context.modules_spec()[i].name@ == entry_name(opts)
                    ==> booted_at(#[trigger] opts.context.modules_spec()[i], i, r),
    {
        proof {
            reveal_strlit("main");
        }
        let ctx = opts.context;
        let name = match opts.entrypoint_module {
            Some(n) => n,
            None => "main".to_string(),
        };
        let mi = match find_module(ctx.modules(), &name) {
            Some(m) => m,
            None => {
                return Err(Error::ModuleNotFound(name));
            },
        };
        let main = "main".to_string();
        let fi = match find_function(&ctx.modules()[mi].functions, &main) {
            Some(f) => f,
            None => {
                return Err(Error::FunctionNotFound(main));
            },
        };
        let f = &ctx.modules()[mi].functions[fi];
        if f.arguments != 0 {
            return Err(Error::MalformedModule);
        }
        let local = Local::new(f.locals as usize);
        let rt = Runtime {
            ctx,
            ip: 0,
            unit: Current::Module(mi),
            function: fi,
            local,
            heap: Heap::new(),
            stack: Stack::new(),
            call_stack: Vec::new(),
            tick: 0,
            pending: None,
        };
        proof {
            assert forall|i: int| 0 <= i < rt.local.values().len() implies rt.heap.valid_value(#[trigger] rt.local.values()[i]) by {
                crate::value::lemma_int_payload(0);
                crate::value::lemma_word_of(2, crate::value::int_payload(0));
            }
        }
        Ok(rt)
    }

    /// Runs at most `budget` instructions; stops earlier at the end of the program, at a call of
    /// a built-in and at a float operation. While the host has not answered, `run` repeats the
    /// question.
    pub fn run(&mut self, budget: u64) -> (r: Result<Event, Error>)
        requires
            old(self).wf(),
        ensures
            final(self).wf(),
            old(self).is_pending() ==> *final(self) == *old(self),
            !old(self).is_pending() && budget >= 1 ==> exists|mid: Runtime<'c>, r0: Result<Option<Event>, Error>| {
                &&& #[trigger] old(self).one_step(&mid, r0)
                &&& (r0 == Ok::<Option<Event>, Error>(None) || (*final(self) == mid && r0 == step_result(r)))
            },
            !old(self).is_pending() && r == Ok::<Event, Error>(Event::Paused) ==> Runtime::steps(*old(self), *final(self), budget as int),
            !old(self).is_pending() && !(r == Ok::<Event, Error>(Event::Paused)) ==> exists|k: int, mid: Runtime<'c>|
                0 <= k < budget && #[trigger] Runtime::steps(*old(self), mid, k) && mid.one_step(final(self), step_result(r)),
    {
        match self.pending {
            Some(Pending::Native) => {
                return Ok(Event::Native { unit: self.unit_name(self.unit), function: self.function_name() });
            },
            Some(p) => {
                return Ok(Runtime::event_of(p));
            },
            None => {},
        }
        let mut n: u64 = 0;
        let ghost mut first: Runtime<'c> = *self;
        let ghost mut tr: Seq<Runtime<'c>> = seq![*self];
        proof {
            assert(Runtime::trace_of(tr, *old(self), *self, 0));
        }
        while n < budget
            invariant
                self.wf(),
                self.pending is None,
                old(self).pending is None,
                n == 0 ==> *self == *old(self),
                n >= 1 ==> old(self).one_step(&first, Ok(None)),
                Runtime::trace_of(tr, *old(self), *self, n as int),
                n <= budget,
            decreases budget - n,
        {
            let ghost before = *self;
            let res = self.step();
            proof {
                if n == 0 {
                    first = *self;
                }
            }
            match res {
                Ok(Some(e)) => {
                    proof {
                        assert(step_result(Ok::<Event, Error>(e)) == Ok::<Option<Event>, Error>(Some(e)));
                        if n == 0 {
                            assert(old(self).one_step(self, Ok::<Option<Event>, Error>(Some(e))));
                        }
                        assert(Runtime::trace_of(tr, *old(self), before, n as int));
                        assert(Runtime::steps(*old(self), before, n as int) && before.one_step(self, step_result(Ok::<Event, Error>(e))));
                    }
                    return Ok(e);
                },
                Err(e) => {
                    proof {
                        if n == 0 {
                            assert(old(self).one_step(self, Err::<Option<Event>, Error>(e)));
                        }
                        assert(Runtime::trace_of(tr, *old(self), before, n as int));
                        assert(Runtime::steps(*old(self), before, n as int) && before.one_step(self, step_result(Err::<Event, Error>(e))));
                    }
                    return Err(e);
                },
                Ok(None) => {},
            }
            proof {
                let tr0 = tr;
                tr = tr.push(*self);
                assert forall|i: int| 0 <= i < n + 1 implies #[trigger] tr[i].one_step(&tr[i + 1], Ok(None)) by {
                    if i < n {
                        assert(tr[i] == tr0[i] && tr[i + 1] == tr0[i + 1]);
                    }
                }
                assert(Runtime::trace_of(tr, *old(self), *self, n + 1));
            }
            n = n + 1;
        }
        proof {
            if budget >= 1 {
                assert(old(self).one_step(&first, Ok::<Option<Event>, Error>(None)));
            }
            assert(Runtime::trace_of(tr, *old(self), *self, budget as int));
        }
        Ok(Event::Paused)
    }

    /// `n` instructions ran from `a` to `b`, each without stopping the machine.
    pub open spec fn steps(a: Runtime<'c>, b: Runtime<'c>, n: int) -> bool {
        exists|tr: Seq<Runtime<'c>>| #[trigger] Runtime::trace_of(tr, a, b, n)
    }

    /// The states `tr` lead from `a` to `b` in `n` instructions that did not stop the machine.
    pub open spec fn trace_of(tr: Seq<Runtime<'c>>, a: Runtime<'c>, b: Runtime<'c>, n: int) -> bool {
        &&& n >= 0
        &&& tr.len() == n + 1
        &&& tr[0] == a
        &&& tr[n] == b
        &&& forall|i: int| 0 <= i < n ==> #[trigger] tr[i].one_step(&tr[i + 1], Ok(None))
    }

    /// The result of a built-in: pushed where there is one, then the call returns.
    pub fn finish_native(&mut self, result: Option<Value>) -> (r: Result<(), Error>)
        requires
            old(self).wf(),
        ensures
            final(self).wf(),
            !(old(self).pending_spec() == Some(Pending::Native)) ==> r is Err && *final(self) == *old(self),
            r is Ok ==> !final(self).is_pending() || final(self).pending_spec() == Some(Pending::Halted),
            old(self).pending_spec() == Some(Pending::Native) ==> {
                &&& (result matches Some(v) && !old(self).heap_spec().valid_value(v)) ==> r == Err::<(), Error>(
                    Error::TypeMismatch) && *final(self) == *old(self)
                &&& (result matches Some(v) && old(self).heap_spec().valid_value(v) && old(self).stack_spec().len()
                    >= STACK_SIZE) ==> r == Err::<(), Error>(Error::StackOverflow) && *final(self) == *old(self)
                &&& (result is None || (old(self).heap_spec().valid_value(result->Some_0) && old(self).stack_spec().len()
                    < STACK_SIZE)) ==> Runtime::native_returned(old(self), final(self), result) && r is Ok
            },
    {
        match self.pending {
            Some(Pending::Native) => {},
            _ => {
                return Err(Error::MalformedModule);
            },
        }
        match result {
            Some(v) => {
                if !self.heap.check_value(v) {
                    return Err(Error::TypeMismatch);
                }
                self.push_checked(v)?;
            },
            None => {},
        }
        self.pending = None;
        let ghost mid = *self;
        self.do_return();
        proof {
            match result {
                Some(v) => {
                    assert(mid.stack@ =~= old(self).stack@ + seq![v]);
                },
                None => {
                    assert(mid.stack@ =~= old(self).stack@ + Seq::<Value>::empty());
                },
            }
        }
        Ok(())
    }

    /// One result pushed, then the call returned.
    pub open spec fn returned_from_call(before: &Runtime<'c>, after: &Runtime<'c>, pushed: Seq<Value>) -> bool {
        &&& after.stack_spec() == before.stack_spec() + pushed
        &&& after.heap_spec() == before.heap_spec()
        &&& before.depth() == 0 ==> after.pending_spec() == Some(Pending::Halted)
        &&& before.depth() > 0 ==> {
            &&& !after.is_pending()
            &&& after.local_spec().values() == before.local_spec().values().subrange(0, before.local_spec().base_spec() as int)
            &&& after.local_spec().base_spec() == before.frames().last().local_frame
            &&& after.frames() == before.frames().drop_last()
            &&& after.ip_spec() == before.frames().last().return_address
            &&& after.unit_spec() == before.frames().last().unit
            &&& after.function_spec() == before.frames().last().function
        }
    }

    pub open spec fn native_returned(before: &Runtime<'c>, after: &Runtime<'c>, result: Option<Value>) -> bool {
        Runtime::returned_from_call(before, after, match result {
            Some(v) => seq![v],
            None => Seq::empty(),
        })
    }

    /// The result of a float operation, as a bit pattern (for a conversion to an integer, the
    /// two's-complement word).
    pub fn finish_float(&mut self, result: u32) -> (r: Result<(), Error>)
        requires
            old(self).wf(),
        ensures
            final(self).wf(),
            r is Ok ==> !final(self).is_pending(),
            !(old(self).pending_spec() matches Some(Pending::Float(_, _, _))) ==> r is Err && *final(self) == *old(self),
            old(self).pending_spec() matches Some(Pending::Float(op, _, _)) ==> match float_finished(op, old(self).stack_spec(), result) {
                Some(t) => r is Ok && final(self).stack_spec() == t && final(self).local_spec() == old(self).local_spec()
                    && final(self).heap_spec() == old(self).heap_spec() && final(self).frames() == old(self).frames()
                    && final(self).ip_spec() == old(self).ip_spec(),
                None => r is Err && *final(self) == *old(self),
            },
    {
        let op = match self.pending {
            Some(Pending::Float(op, _, _)) => op,
            _ => {
                return Err(Error::MalformedModule);
            },
        };
        let ghost s0 = self.stack@;
        match op {
            FloatOp::IntToFloat => {
                self.stack.top_with_tag(TAG_INTEGER)?;
                let v = Value::mk_float_bits(result);
                proof {
                    lemma_valid_prefix(self.heap, s0, s0.len() - 1);
                    lemma_valid_push(self.heap, crate::stack::drop_top(s0, 1), v);
                }
                self.stack.replace_top(v);
            },
            FloatOp::FloatToInt => {
                self.stack.top_with_tag(crate::value::TAG_FLOAT)?;
                let v = Value::mk_integer(result as i32);
                proof {
                    lemma_valid_prefix(self.heap, s0, s0.len() - 1);
                    lemma_valid_push(self.heap, crate::stack::drop_top(s0, 1), v);
                }
                self.stack.replace_top(v);
            },
            _ => {
                self.stack.float_operands()?;
                self.stack.replace_top_two_with_float(result);
                proof {
                    lemma_prims_valid(self.heap, s0, self.stack@);
                }
            },
        }
        self.pending = None;
        Ok(())
    }

    /// Allocates a string for a built-in.
    pub fn alloc_string(&mut self, s: String) -> (r: Result<Value, Error>)
        requires
            old(self).wf(),
        ensures
            final(self).wf(),
            r is Err <==> !old(self).heap_spec().has_room(),
            r is Err ==> r == Err::<Value, Error>(Error::HeapExhausted) && *final(self) == *old(self),
            r matches Ok(v) ==> final(self).heap_spec().valid_value(v) && v.spec_tag() == crate::value::TAG_STRING
                && (final(self).heap_spec().object(v.spec_payload() as int) matches Object::String(o) && o.contents@ == s@)
                && final(self).heap_spec().allocated(&old(self).heap_spec(), v.spec_payload() as int,
                    final(self).heap_spec().object(v.spec_payload() as int))
                && final(self).stack_spec() == old(self).stack_spec() && final(self).local_spec() == old(self).local_spec(),
    {
        let ghost h0 = self.heap;
        let v = self.heap.alloc_string(s)?;
        proof {
            self.lemma_heap_grew(h0);
        }
        Ok(v)
    }

    /// What `std:out` prints for `v`; fails where `v` refers to no live object of its kind.
    pub fn display(&self, v: Value) -> (r: Result<Vec<crate::formatting::Piece>, Error>)
        requires
            self.wf(),
        ensures
            r is Ok <==> self.heap_spec().valid_value(v),
            r matches Ok(p) ==> crate::formatting::pieces_view(p@) == crate::formatting::display_pieces(
                self.heap_spec(),
                v,
            ),
    {
        if !self.heap.check_value(v) {
            return Err(Error::TypeMismatch);
        }
        Ok(crate::formatting::display_value(v, &self.heap))
    }

    /// Slot `index` of the current local frame.
    pub fn load_local(&self, index: usize) -> (r: Result<Value, Error>)
        requires
            self.wf(),
        ensures
            r is Ok <==> self.local_spec().in_frame(index as int),
            r matches Ok(v) ==> v == self.local_spec().values()[self.local_spec().base_spec() + index]
                && self.heap_spec().valid_value(v),
            r is Err ==> r == Err::<Value, Error>(Error::IndexOutOfBounds),
    {
        self.check_slot(index)?;
        proof {
            assert(self.heap.valid_value(self.local.values()[self.local.base_spec() + index]));
        }
        Ok(self.local.load(index))
    }

    /// The entry `index` of the running unit's pool.
    pub fn fetch_constant(&self, index: usize) -> (r: Result<&PoolEntry, Error>)
        requires
            self.wf(),
        ensures
            r is Ok <==> index < self.pool().len(),
            r is Err ==> r == Err::<&PoolEntry, Error>(Error::InvalidConstantPoolEntry(index)),
            r matches Ok(e) ==> *e == self.pool()[index as int],
    {
        self.constant(index)
    }

    pub fn local(&self) -> (r: &Local)
        ensures
            *r == self.local_spec(),
    {
        &self.local
    }

    pub fn heap(&self) -> (r: &Heap)
        ensures
            *r == self.heap_spec(),
    {
        &self.heap
    }

    pub fn stack(&self) -> (r: &Stack)
        ensures
            r@ == self.stack_spec(),
    {
        &self.stack
    }

    /// The number of saved callers.
    pub fn call_depth(&self) -> (r: usize)
        ensures
            r == self.depth(),
    {
        self.call_stack.len()
    }

    pub fn ip(&self) -> (r: usize)
        ensures
            r == self.ip_spec(),
    {
        self.ip
    }

    /// Where the machine stands, then each saved caller, the most recent last.
    pub fn stack_trace(&self) -> (r: Vec<TraceEntry>)
        requires
            self.wf(),
        ensures
            trace_matches(r@, self.trace_spec()),
    {
        let mut r: Vec<TraceEntry> = Vec::new();
        r.push(TraceEntry { unit: self.unit_name(self.unit), function: self.function_name(), ip: self.ip });
        let mut i: usize = 0;
        while i < self.call_stack.len()
            invariant
                i <= self.call_stack@.len(),
                r@.len() == 1 + i,
                self.wf(),
                forall|k: int| 0 <= k < r@.len() ==> entry_is(#[trigger] r@[k], self.trace_spec()[k]),
                self.trace_spec().len() == self.call_stack@.len() + 1,
            decreases self.call_stack@.len() - i,
        {
            let fr = self.call_stack[i];
            proof {
                assert(frame_ok(self.ctx, self.call_stack@[i as int]));
            }
            let function = match fr.unit {
                Current::Module(m) => self.ctx.modules()[m].functions[fr.function].name.clone(),
                Current::Class(c) => self.ctx.classes()[c].methods[fr.function].name.clone(),
            };
            let ghost r0 = r@;
            r.push(TraceEntry { unit: self.unit_name(fr.unit), function, ip: fr.return_address });
            proof {
                assert forall|k: int| 0 <= k < r@.len() implies entry_is(#[trigger] r@[k], self.trace_spec()[k]) by {
                    if k < r0.len() {
                        assert(r@[k] == r0[k]);
                    }
                }
            }
            i = i + 1;
        }
        r
    }

    /// Collects now: what the operand stack and the locals do not reach is freed.
    pub fn collect_garbage(&mut self)
        requires
            old(self).wf(),
        ensures
            final(self).wf(),
            forall|h: int| #[trigger] final(self).heap_spec().live(h) <==> old(self).heap_spec().reachable(
                old(self).stack_spec() + old(self).local_spec().values(),
                h,
            ),
    {
        self.heap.gc(&self.stack, &self.local);
    }

    /// Empties the operand stack, the locals and the calls, then collects: no object is left.
    /// The program cannot go on afterwards.
    pub fn clean_gc(&mut self)
        requires
            old(self).wf(),
        ensures
            final(self).wf(),
            crate::heap::count_some(final(self).heap_spec().objects()) == 0,
    {
        self.stack.clear();
        self.local.clear();
        self.call_stack.clear();
        self.pending = Some(Pending::Halted);
        self.heap.gc(&self.stack, &self.local);
    }
}

/// Prints nothing itself: gives the lines of a stack trace.
pub struct StackTrace;

impl StackTrace {
    pub fn visit(&self, rt: &Runtime) -> (r: Vec<TraceEntry>)
        requires
            rt.wf(),
        ensures
            trace_matches(r@, rt.trace_spec()),
    {
        rt.stack_trace()
    }
}

/// Clears every root and collects.
pub struct CleanGc;

impl CleanGc {
    pub fn visit(&self, rt: &mut Runtime)
        requires
            old(rt).wf(),
        ensures
            final(rt).wf(),
            crate::heap::count_some(final(rt).heap_spec().objects()) == 0,
    {
        rt.clean_gc();
    }
}

impl<'c> Runtime<'c> {
    /// What one instruction does, as far as these clauses say: a call opens a frame of the
    /// callee's size, a return closes one, `HALT` ends the program, `POP` of an empty stack and
    /// a division by zero fail and leave the stack, and an instruction that creates no object
    /// frees none into being.
    pub open spec fn one_step(&self, after: &Runtime, r: Result<Option<Event>, Error>) -> bool {
        &&& (self.next_opcode() matches Some(op) && (op == opcode::CALL || op == opcode::CALL_METHOD
            || op == opcode::NEW) && r is Ok ==> {
            &&& after.local_spec().values().len() == self.local_spec().values().len()
                + after.current_function().locals
            &&& after.depth() == self.depth() + 1
        })
        &&& (self.next_opcode() == Some(opcode::RETURN) && self.depth() > 0 ==> {
            &&& r == Ok::<Option<Event>, Error>(None)
            &&& after.local_spec().values().len() == self.local_spec().base_spec()
            &&& after.depth() == self.depth() - 1
        })
        &&& (self.next_opcode() == Some(opcode::HALT) ==> (r matches Ok(Some(e)) && e is Halted))
        &&& (self.next_opcode() == Some(opcode::POP) && self.stack_spec().len() == 0 ==> r == Err::<
            Option<Event>,
            Error,
        >(Error::StackUnderflow))
        &&& (self.next_opcode() matches Some(op) && (op == opcode::IDIV || op == opcode::IREM)
            && crate::stack::top_two_ints(self.stack_spec()) && self.stack_spec().last().spec_integer() == 0
            ==> r == Err::<Option<Event>, Error>(Error::DivideByZero) && after.stack_spec() == self.stack_spec())
        &&& (self.next_opcode() matches Some(op) && !allocates(op) ==> forall|h: int|
            #[trigger] after.heap_spec().live(h) ==> self.heap_spec().live(h))
        &&& (self.next_opcode() is Some && is_branch_opcode(self.next_opcode()->Some_0) ==> {
            &&& branch_post(self, self.ip_spec() + 1, self.next_opcode()->Some_0, self.stack_spec(), after.stack_spec(),
                after.ip_spec(), r)
            &&& r is Ok ==> r == Ok::<Option<Event>, Error>(None) && after.local_spec() == self.local_spec()
                && after.frames() == self.frames()
        })
        &&& (self.next_opcode() == Some(opcode::LOADCONST) && self.no_collection() ==> {
            &&& loadconst_post(self, self.ip_spec() + 1, self.heap_spec(), after.heap_spec(), self.stack_spec(),
                after.stack_spec(), r)
            &&& r is Ok ==> r == Ok::<Option<Event>, Error>(None) && after.local_spec() == self.local_spec()
                && after.frames() == self.frames()
        })
        &&& (self.next_opcode() == Some(opcode::RETURN) && self.no_collection() ==> Runtime::returned_from_call(self, after,
            Seq::empty()))
        &&& (self.next_opcode() == Some(opcode::GET_FIELD) && self.no_collection() && r is Ok ==> get_field_post(self,
            self.ip_spec() + 1, self.heap_spec(), self.stack_spec(), after.stack_spec()))
        &&& (self.next_opcode() == Some(opcode::SET_FIELD) && self.no_collection() && r is Ok ==> set_field_post(self,
            self.ip_spec() + 1, self.heap_spec(), after.heap_spec(), self.stack_spec(), after.stack_spec()))
        &&& (self.next_opcode() == Some(opcode::ARRAY_GET) && self.no_collection() ==> {
            &&& array_get_post(self.heap_spec(), self.stack_spec(), after.stack_spec(), r)
            &&& r is Ok ==> r == Ok::<Option<Event>, Error>(None) && after.ip_spec() == self.ip_spec() + 1
                && after.local_spec() == self.local_spec() && after.frames() == self.frames()
        })
        &&& (self.next_opcode() == Some(opcode::ARRAY_SET) && self.no_collection() ==> {
            &&& array_set_post(self.heap_spec(), after.heap_spec(), self.stack_spec(), after.stack_spec(), r)
            &&& r is Ok ==> r == Ok::<Option<Event>, Error>(None) && after.ip_spec() == self.ip_spec() + 1
                && after.local_spec() == self.local_spec() && after.frames() == self.frames()
        })
        &&& (self.next_opcode() == Some(opcode::NEW_ARRAY) && self.no_collection() ==> {
            &&& new_array_post(self.heap_spec(), after.heap_spec(), self.stack_spec(), after.stack_spec(), r)
            &&& r is Ok ==> r == Ok::<Option<Event>, Error>(None) && after.ip_spec() == self.ip_spec() + 1
                && after.local_spec() == self.local_spec() && after.frames() == self.frames()
        })
        &&& (self.next_opcode() matches Some(op) && !allocates(op) && self.no_collection() ==> forall|h: int|
            #[trigger] after.heap_spec().live(h) == self.heap_spec().live(h))
        &&& (self.next_opcode() matches Some(op) && !allocates(op) && self.no_collection()
            ==> after.heap_spec().objects().len() == self.heap_spec().objects().len())
        &&& (self.next_opcode() == Some(opcode::TAILCALL) ==> (Runtime::can_tailcall(self) ==> r == Ok::<
            Option<Event>,
            Error,
        >(None) && Runtime::tailcalled(self, after)) && (!Runtime::can_tailcall(self) ==> r is Err))
        &&& (self.next_opcode() == Some(opcode::CALL) && r is Ok ==> exists|m: Runtime, u: Current, fi: usize|
            Runtime::same_call_state(&m, self) && m.ip_spec() == self.ip_spec() + 5
                && #[trigger] Runtime::entered(&m, after, u, fi, None, false))
        &&& (self.next_opcode() == Some(opcode::CALL_METHOD) && r is Ok ==> exists|m: Runtime, u: Current, fi: usize|
            Runtime::same_call_state_but_stack(&m, self) && m.ip_spec() == self.ip_spec() + 5
                && self.stack_spec().len() > 0 && m.stack_spec() == drop_top(self.stack_spec(), 1)
                && #[trigger] Runtime::entered(&m, after, u, fi, Some(self.stack_spec().last()), false))
        &&& (self.next_opcode() == Some(opcode::NEW) && r is Ok ==> exists|m: Runtime, u: Current, fi: usize, v: Value|
            Runtime::same_call_state(&m, self) && m.ip_spec() == self.ip_spec() + 3
                && v.spec_tag() == crate::value::TAG_CLASS && m.heap_spec().valid_value(v)
                && #[trigger] Runtime::entered(&m, after, u, fi, Some(v), true))
        &&& (self.next_opcode() is Some && is_operand_local_opcode(self.next_opcode()->Some_0) ==> {
            &&& operand_local_post(self, self.ip_spec() + 1, self.next_opcode()->Some_0, self.local_spec(), after.local_spec(),
                self.stack_spec(), after.stack_spec(), after.ip_spec(), r)
            &&& r is Ok ==> r == Ok::<Option<Event>, Error>(None) && after.frames() == self.frames()
        })
        &&& (self.next_opcode() is Some && load_slot(self.next_opcode()->Some_0) is Some ==> {
            &&& load_post(self.local_spec(), load_slot(self.next_opcode()->Some_0)->Some_0, self.stack_spec(),
                after.stack_spec(), r)
            &&& r is Ok ==> r == Ok::<Option<Event>, Error>(None) && after.local_spec() == self.local_spec()
                && after.frames() == self.frames() && after.ip_spec() == self.ip_spec() + 1
        })
        &&& (self.next_opcode() is Some && store_slot(self.next_opcode()->Some_0) is Some ==> {
            &&& store_post(self.local_spec(), after.local_spec(), store_slot(self.next_opcode()->Some_0)->Some_0,
                self.stack_spec(), after.stack_spec(), r)
            &&& r is Ok ==> r == Ok::<Option<Event>, Error>(None) && after.frames() == self.frames()
                && after.ip_spec() == self.ip_spec() + 1
        })
        &&& (self.next_opcode() is Some && is_stack_opcode(self.next_opcode()->Some_0) ==> {
            &&& stack_opcode_post(self.next_opcode()->Some_0, self.stack_spec(), after.stack_spec(), r)
            &&& r is Ok ==> r == Ok::<Option<Event>, Error>(None) && after.ip_spec() == self.ip_spec() + 1
                && after.local_spec() == self.local_spec() && after.frames() == self.frames()
        })
        &&& (self.next_opcode() == Some(opcode::LOADCONST) && self.code_byte(self.ip_spec() + 1) is Some
            && self.pool_rejects(self.code_byte(self.ip_spec() + 1)->Some_0 as int) ==> r == Err::<
            Option<Event>,
            Error,
        >(Error::InvalidConstantPoolEntry(self.code_byte(self.ip_spec() + 1)->Some_0 as usize))
            && after.stack_spec() == self.stack_spec() && (self.no_collection() ==> after.heap_spec() == self.heap_spec()))
    }
}

/// An instruction that creates no object, run without a collection before it, keeps the
/// number of live objects.
pub proof fn lemma_no_allocation_keeps_live_count(
    before: &Runtime,
    after: &Runtime,
    r: Result<Option<Event>, Error>,
)
    requires
        before.one_step(after, r),
        before.next_opcode() matches Some(op) && !allocates(op),
        before.no_collection(),
    ensures
        crate::heap::count_some(after.heap_spec().objects()) == crate::heap::count_some(before.heap_spec().objects()),
{
    let a = after.heap_spec();
    let b = before.heap_spec();
    assert forall|i: int| 0 <= i < a.objects().len() implies (a.objects()[i] is Some <==> b.objects()[i] is Some) by {
        assert(a.live(i) == b.live(i));
    }
    crate::heap::lemma_count_some_same(a.objects(), b.objects());
}

/// An instruction that creates no object leaves an empty heap empty: a program that never
/// allocates ends with as many live objects as it started with, none.
pub proof fn lemma_no_allocation_keeps_heap_empty(
    before: &Runtime,
    after: &Runtime,
    r: Result<Option<Event>, Error>,
)
    requires
        before.one_step(after, r),
        before.next_opcode() matches Some(op) && !allocates(op),
        forall|h: int| !before.heap_spec().live(h),
    ensures
        forall|h: int| !after.heap_spec().live(h),
        crate::heap::count_some(after.heap_spec().objects()) == 0,
{
    assert forall|k: int| 0 <= k < after.heap_spec().objects().len() implies after.heap_spec().objects()[k] is None by {
        if after.heap_spec().live(k) {
            assert(before.heap_spec().live(k));
        }
    }
    crate::heap::lemma_count_some_none(after.heap_spec().objects());
}
} // verus!
