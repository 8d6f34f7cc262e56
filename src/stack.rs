use vstd::prelude::*;

use vstd::arithmetic::div_mod::{lemma_mul_mod_noop, lemma_mod_twice};
use vstd::arithmetic::power::{lemma_pow_mod_noop, lemma_pow_multiplies, lemma_pow1, pow};
use vstd::wrapping::i32_specs::{signed_crop, wrapping_mul};

use crate::error::Error;
use crate::value::{Value, TAG_BYTE, TAG_FLOAT, TAG_INTEGER};

verus! {

/// Capacity of the operand stack, in values.
pub const STACK_SIZE: usize = 2048;

/// Integer operations that take two operands.
#[derive(Clone, Copy, PartialEq, Eq, Structural, Debug)]
pub enum IntOp {
    Add,
    Sub,
    Mul,
    Div,
    Rem,
    And,
    Or,
    Xor,
    Shl,
    Shr,
    Ushr,
}

/// Byte operations that take two operands.
#[derive(Clone, Copy, PartialEq, Eq, Structural, Debug)]
pub enum ByteOp {
    Add,
    Sub,
    Mul,
    Div,
    Rem,
    And,
    Or,
    Xor,
    Shl,
    Shr,
}

/// Integer comparisons of the conditional branches.
#[derive(Clone, Copy, PartialEq, Eq, Structural, Debug)]
pub enum Comparison {
    Eq,
    Neq,
    Gt,
    Ge,
    Lt,
    Le,
}

/// Result of an integer operation; `None` where the divisor is zero.
/// Arithmetic wraps in two's complement; shifts use the low five bits of the right operand.
pub open spec fn int_op_result(op: IntOp, a: i32, b: i32) -> Option<i32> {
    match op {
        IntOp::Add => Some(vstd::wrapping::i32_specs::wrapping_add(a, b)),
        IntOp::Sub => Some(vstd::wrapping::i32_specs::wrapping_sub(a, b)),
        IntOp::Mul => Some(vstd::wrapping::i32_specs::wrapping_mul(a, b)),
        IntOp::Div => if b == 0 {
            None
        } else {
            match a.checked_div(b) {
                Some(q) => Some(q),
                None => Some(a),
            }
        },
        IntOp::Rem => if b == 0 {
            None
        } else {
            match a.checked_rem(b) {
                Some(q) => Some(q),
                None => Some(0i32),
            }
        },
        IntOp::And => Some(a & b),
        IntOp::Or => Some(a | b),
        IntOp::Xor => Some(a ^ b),
        IntOp::Shl => Some(a << ((b as u32) % 32)),
        IntOp::Shr => Some(a >> ((b as u32) % 32)),
        IntOp::Ushr => Some((((a as u32) >> ((b as u32) % 32)) as i32)),
    }
}

/// Result of a byte operation; `None` where the divisor is zero.
/// Arithmetic wraps modulo 256; shifts use the low three bits of the right operand.
pub open spec fn byte_op_result(op: ByteOp, a: u8, b: u8) -> Option<u8> {
    match op {
        ByteOp::Add => Some(vstd::wrapping::u8_specs::wrapping_add(a, b)),
        ByteOp::Sub => Some(vstd::wrapping::u8_specs::wrapping_sub(a, b)),
        ByteOp::Mul => Some(vstd::wrapping::u8_specs::wrapping_mul(a, b)),
        ByteOp::Div => if b == 0 {
            None
        } else {
            Some((a / b) as u8)
        },
        ByteOp::Rem => if b == 0 {
            None
        } else {
            Some((a % b) as u8)
        },
        ByteOp::And => Some(a & b),
        ByteOp::Or => Some(a | b),
        ByteOp::Xor => Some(a ^ b),
        ByteOp::Shl => Some(a << ((b as u32) % 8)),
        ByteOp::Shr => Some(a >> ((b as u32) % 8)),
    }
}

pub open spec fn compare_result(c: Comparison, a: i32, b: i32) -> bool {
    match c {
        Comparison::Eq => a == b,
        Comparison::Neq => a != b,
        Comparison::Gt => a > b,
        Comparison::Ge => a >= b,
        Comparison::Lt => a < b,
        Comparison::Le => a <= b,
    }
}

/// `a` to the power `e`, where the bits of `b` give `e` read as an unsigned word,
/// wrapped to 32 bits.
pub open spec fn iexp_result(a: i32, b: i32) -> i32 {
    signed_crop(pow(a as int, (b as u32) as nat))
}

pub open spec fn iexp_post(s: Seq<Value>, t: Seq<Value>, r: Result<(), Error>) -> bool {
    if s.len() < 2 {
        r == Err::<(), Error>(Error::StackUnderflow) && t == s
    } else if !top_two_ints(s) {
        r == Err::<(), Error>(Error::TypeMismatch) && t == s
    } else {
        r == Ok::<(), Error>(()) && t == drop_top(s, 2).push(
            Value::of_int(iexp_result(s[s.len() - 2].spec_integer(), s[s.len() - 1].spec_integer())),
        )
    }
}

/// Wrapping to 32 bits keeps the residue modulo 2^32.
proof fn lemma_crop_mod(x: int)
    ensures
        signed_crop(x) as int % 0x1_0000_0000 == x % 0x1_0000_0000,
{
    let m = 0x1_0000_0000int;
    lemma_mod_twice(x, m);
    if x % m > 0x7FFF_FFFF {
        assert((x % m - m) % m == x % m % m) by {
            vstd::arithmetic::div_mod::lemma_mod_sub_multiples_vanish(x % m, m);
        }
    }
}

proof fn lemma_crop_self(r: i32)
    ensures
        signed_crop(r as int) == r,
{
}

/// One step of exponentiation by squaring keeps the residue of `r * b^e`.
proof fn lemma_square_step(r: i32, b: i32, e: nat)
    requires
        e > 0,
    ensures
        (if e % 2 == 1 { wrapping_mul(r, b) } else { r }) as int * pow(
            wrapping_mul(b, b) as int,
            e / 2,
        ) % 0x1_0000_0000 == (r as int * pow(b as int, e)) % 0x1_0000_0000,
{
    let m = 0x1_0000_0000int;
    let k = e / 2;
    let nr: int = (if e % 2 == 1 { wrapping_mul(r, b) } else { r }) as int;
    let nb: int = wrapping_mul(b, b) as int;
    let bb: int = b as int * b as int;
    lemma_crop_mod(bb);
    lemma_crop_mod(r as int * b as int);
    lemma_pow_mod_noop(nb, k, m);
    lemma_pow_mod_noop(bb, k, m);
    assert(pow(nb, k) % m == pow(bb, k) % m);
    lemma_pow1(b as int);
    assert(pow(b as int, 2) == bb) by {
        reveal(pow);
    }
    lemma_pow_multiplies(b as int, 2, k);
    assert(pow(bb, k) == pow(b as int, 2 * k));
    lemma_mul_mod_noop(nr, pow(nb, k), m);
    lemma_mul_mod_noop(nr, pow(bb, k), m);
    if e % 2 == 1 {
        assert(e == 2 * k + 1);
        assert(pow(b as int, e) == b as int * pow(b as int, 2 * k)) by {
            reveal(pow);
        }
        lemma_mul_mod_noop(r as int * b as int, pow(bb, k), m);
        assert(nr % m == (r as int * b as int) % m);
        assert((r as int * b as int) * pow(bb, k) == r as int * pow(b as int, e)) by (nonlinear_arith)
            requires
                pow(b as int, e) == b as int * pow(bb, k),
        ;
    } else {
        assert(e == 2 * k);
    }
}

/// Where `t` differs from `s`, it holds no reference.
pub open spec fn prims_over(s: Seq<Value>, t: Seq<Value>) -> bool {
    forall|i: int| 0 <= i < t.len() ==> (i < s.len() && t[i] == s[i]) || !(#[trigger] t[i]).is_heap()
}

/// The two top values of `s`, second and first, are both integers.
pub open spec fn top_two_ints(s: Seq<Value>) -> bool {
    s.len() >= 2 && s[s.len() - 2].is_int() && s[s.len() - 1].is_int()
}

pub open spec fn top_two_bytes(s: Seq<Value>) -> bool {
    s.len() >= 2 && s[s.len() - 2].is_byte() && s[s.len() - 1].is_byte()
}

pub open spec fn top_two_floats(s: Seq<Value>) -> bool {
    s.len() >= 2 && s[s.len() - 2].is_float() && s[s.len() - 1].is_float()
}

/// `s` without its top `n` values.
pub open spec fn drop_top(s: Seq<Value>, n: int) -> Seq<Value> {
    s.subrange(0, s.len() - n)
}

/// What a binary integer operation does to the stack `s`, giving `t` and `r`.
/// On every error the stack is left as it was.
pub open spec fn int_binary_post(
    op: IntOp,
    s: Seq<Value>,
    t: Seq<Value>,
    r: Result<(), Error>,
) -> bool {
    if s.len() < 2 {
        r == Err::<(), Error>(Error::StackUnderflow) && t == s
    } else if !top_two_ints(s) {
        r == Err::<(), Error>(Error::TypeMismatch) && t == s
    } else {
        match int_op_result(op, s[s.len() - 2].spec_integer(), s[s.len() - 1].spec_integer()) {
            None => r == Err::<(), Error>(Error::DivideByZero) && t == s,
            Some(v) => r == Ok::<(), Error>(()) && t == drop_top(s, 2).push(Value::of_int(v)),
        }
    }
}

pub open spec fn byte_binary_post(
    op: ByteOp,
    s: Seq<Value>,
    t: Seq<Value>,
    r: Result<(), Error>,
) -> bool {
    if s.len() < 2 {
        r == Err::<(), Error>(Error::StackUnderflow) && t == s
    } else if !top_two_bytes(s) {
        r == Err::<(), Error>(Error::TypeMismatch) && t == s
    } else {
        match byte_op_result(op, s[s.len() - 2].spec_byte(), s[s.len() - 1].spec_byte()) {
            None => r == Err::<(), Error>(Error::DivideByZero) && t == s,
            Some(v) => r == Ok::<(), Error>(()) && t == drop_top(s, 2).push(Value::byte_value(v)),
        }
    }
}

pub open spec fn compare_post(
    c: Comparison,
    s: Seq<Value>,
    t: Seq<Value>,
    r: Result<bool, Error>,
) -> bool {
    if s.len() < 2 {
        r == Err::<bool, Error>(Error::StackUnderflow) && t == s
    } else if !top_two_ints(s) {
        r == Err::<bool, Error>(Error::TypeMismatch) && t == s
    } else {
        r == Ok::<bool, Error>(
            compare_result(c, s[s.len() - 2].spec_integer(), s[s.len() - 1].spec_integer()),
        ) && t == drop_top(s, 2)
    }
}

/// What a one-operand operation does: `f` gives the result for the top value, or `None`
/// where that value has the wrong tag.
pub open spec fn unary_post(
    s: Seq<Value>,
    t: Seq<Value>,
    r: Result<(), Error>,
    result: Option<Value>,
) -> bool {
    if s.len() < 1 {
        r == Err::<(), Error>(Error::StackUnderflow) && t == s
    } else {
        match result {
            None => r == Err::<(), Error>(Error::TypeMismatch) && t == s,
            Some(v) => r == Ok::<(), Error>(()) && t == drop_top(s, 1).push(v),
        }
    }
}

pub open spec fn ineg_result(v: Value) -> Option<Value> {
    if v.is_int() {
        Some(Value::of_int(vstd::wrapping::i32_specs::wrapping_sub(0, v.spec_integer())))
    } else {
        None
    }
}

pub open spec fn bneg_result(v: Value) -> Option<Value> {
    if v.is_byte() {
        Some(Value::byte_value(vstd::wrapping::u8_specs::wrapping_sub(0, v.spec_byte())))
    } else {
        None
    }
}

/// IEEE-754 negation flips the sign bit of the pattern.
pub open spec fn fneg_result(v: Value) -> Option<Value> {
    if v.is_float() {
        Some(Value::float_value(v.spec_float_bits() ^ 0x8000_0000u32))
    } else {
        None
    }
}

/// The bit pattern of the binary32 value 1.0.
pub const FLOAT_ONE_BITS: u32 = 0x3F80_0000;

/// 1 where the number is zero, 0 elsewhere, with the tag of the operand.
/// A float counts as zero where its pattern is that of 0.0 or of -0.0.
pub open spec fn is_zero_result(v: Value) -> Option<Value> {
    if v.is_byte() {
        Some(Value::byte_value(if v.spec_byte() == 0 { 1u8 } else { 0u8 }))
    } else if v.is_int() {
        Some(Value::of_int(if v.spec_integer() == 0 { 1i32 } else { 0i32 }))
    } else if v.is_float() {
        Some(Value::float_value(
            if v.spec_float_bits() & 0x7FFF_FFFFu32 == 0 { FLOAT_ONE_BITS } else { 0u32 },
        ))
    } else {
        None
    }
}

/// The operand stack: a bounded sequence of values, the last one on top.
pub struct Stack {
    memory: Vec<Value>,
}

impl View for Stack {
    type V = Seq<Value>;

    closed spec fn view(&self) -> Seq<Value> {
        self.memory@
    }
}

impl Stack {
    pub open spec fn wf(&self) -> bool {
        self@.len() <= STACK_SIZE
    }

    pub open spec fn is_full_spec(&self) -> bool {
        self@.len() >= STACK_SIZE
    }

    pub fn new() -> (r: Stack)
        ensures
            r@ == Seq::<Value>::empty(),
            r.wf(),
    {
        Stack { memory: Vec::new() }
    }

    /// Empties the stack.
    pub fn clear(&mut self)
        ensures
            prims_over(old(self)@, final(self)@),
            final(self)@ == Seq::<Value>::empty(),
            final(self).wf(),
    {
        self.memory.clear();
    }

    pub fn len(&self) -> (r: usize)
        ensures
            r == self@.len(),
    {
        self.memory.len()
    }

    pub fn is_full(&self) -> (r: bool)
        requires
            self.wf(),
        ensures
            r == self.is_full_spec(),
    {
        self.memory.len() >= STACK_SIZE
    }

    /// The value at `index`, counted from the bottom.
    pub fn get(&self, index: usize) -> (r: Value)
        requires
            index < self@.len(),
        ensures
            r == self@[index as int],
    {
        self.memory[index]
    }

    /// The values from the bottom to the top.
    pub fn values(&self) -> (r: &Vec<Value>)
        ensures
            r@ == self@,
    {
        &self.memory
    }

    pub fn push(&mut self, value: Value)
        requires
            old(self).wf(),
            !old(self).is_full_spec(),
        ensures
            final(self)@ == old(self)@.push(value),
            final(self).wf(),
    {
        self.memory.push(value);
    }

    pub fn pop(&mut self) -> (r: Result<Value, Error>)
        ensures
            prims_over(old(self)@, final(self)@),
            old(self)@.len() == 0 ==> r == Err::<Value, Error>(Error::StackUnderflow) && final(self)@ == old(self)@,
            old(self)@.len() > 0 ==> r == Ok::<Value, Error>(old(self)@.last()) && final(self)@
                == drop_top(old(self)@, 1),
    {
        match self.memory.pop() {
            Some(v) => Ok(v),
            None => Err(Error::StackUnderflow),
        }
    }

    pub fn pop_unchecked(&mut self) -> (r: Value)
        requires
            old(self)@.len() > 0,
        ensures
            prims_over(old(self)@, final(self)@),
            r == old(self)@.last(),
            final(self)@ == drop_top(old(self)@, 1),
    {
        let v = self.memory.pop();
        match v {
            Some(v) => v,
            None => Value::null(),
        }
    }

    /// The top value, left in place.
    pub fn peek(&self) -> (r: Result<Value, Error>)
        ensures
            self@.len() == 0 ==> r == Err::<Value, Error>(Error::StackUnderflow),
            self@.len() > 0 ==> r == Ok::<Value, Error>(self@.last()),
    {
        let n = self.memory.len();
        if n == 0 {
            Err(Error::StackUnderflow)
        } else {
            Ok(self.memory[n - 1])
        }
    }

    /// Fails with `StackUnderflow` where fewer than `len` values are on the stack.
    pub fn check_underflow(&self, len: usize) -> (r: Result<(), Error>)
        ensures
            r == if self@.len() < len {
                Err::<(), Error>(Error::StackUnderflow)
            } else {
                Ok::<(), Error>(())
            },
    {
        if self.memory.len() < len {
            Err(Error::StackUnderflow)
        } else {
            Ok(())
        }
    }

    pub fn dup(&mut self) -> (r: Result<(), Error>)
        requires
            old(self).wf(),
        ensures
            final(self).wf(),
            old(self)@.len() == 0 ==> r == Err::<(), Error>(Error::StackUnderflow) && final(self)@ == old(self)@,
            old(self)@.len() > 0 && old(self).is_full_spec() ==> r == Err::<(), Error>(Error::StackOverflow) && final(self)@ == old(self)@,
            old(self)@.len() > 0 && !old(self).is_full_spec() ==> r == Ok::<(), Error>(())
                && final(self)@ == old(self)@.push(old(self)@.last()),
    {
        let top = self.peek()?;
        if self.is_full() {
            return Err(Error::StackOverflow);
        }
        self.push(top);
        Ok(())
    }

    pub fn iconst_0(&mut self)
        requires
            old(self).wf(),
            !old(self).is_full_spec(),
        ensures
            prims_over(old(self)@, final(self)@),
            final(self)@ == old(self)@.push(Value::of_int(0)),
            final(self).wf(),
    {
        self.push(Value::mk_integer(0));
    }

    pub fn iconst_1(&mut self)
        requires
            old(self).wf(),
            !old(self).is_full_spec(),
        ensures
            prims_over(old(self)@, final(self)@),
            final(self)@ == old(self)@.push(Value::of_int(1)),
            final(self).wf(),
    {
        self.push(Value::mk_integer(1));
    }

    /// Pushes the float 0.0.
    pub fn fconst_0(&mut self)
        requires
            old(self).wf(),
            !old(self).is_full_spec(),
        ensures
            prims_over(old(self)@, final(self)@),
            final(self)@ == old(self)@.push(Value::float_value(0)),
            final(self).wf(),
    {
        self.push(Value::mk_float_bits(0));
    }

    /// Pushes the float 1.0.
    pub fn fconst_1(&mut self)
        requires
            old(self).wf(),
            !old(self).is_full_spec(),
        ensures
            prims_over(old(self)@, final(self)@),
            final(self)@ == old(self)@.push(Value::float_value(FLOAT_ONE_BITS)),
            final(self).wf(),
    {
        self.push(Value::mk_float_bits(FLOAT_ONE_BITS));
    }

    /// Pushes a byte widened to an integer.
    pub fn push_byte(&mut self, byte: u8)
        requires
            old(self).wf(),
            !old(self).is_full_spec(),
        ensures
            prims_over(old(self)@, final(self)@),
            final(self)@ == old(self)@.push(Value::of_int(byte as i32)),
            final(self).wf(),
    {
        self.push(Value::mk_integer(byte as i32));
    }

    /// Pushes a short widened to an integer.
    pub fn push_short(&mut self, short: u16)
        requires
            old(self).wf(),
            !old(self).is_full_spec(),
        ensures
            prims_over(old(self)@, final(self)@),
            final(self)@ == old(self)@.push(Value::of_int(short as i32)),
            final(self).wf(),
    {
        self.push(Value::mk_integer(short as i32));
    }

    /// Pops two integers, `a` below `b`, and pushes `a op b`.
    pub fn int_binary(&mut self, op: IntOp) -> (r: Result<(), Error>)
        requires
            old(self).wf(),
        ensures
            prims_over(old(self)@, final(self)@),
            final(self).wf(),
            int_binary_post(op, old(self)@, final(self)@, r),
    {
        let n = self.memory.len();
        if n < 2 {
            return Err(Error::StackUnderflow);
        }
        let va = self.memory[n - 2];
        let vb = self.memory[n - 1];
        if va.tag() != TAG_INTEGER || vb.tag() != TAG_INTEGER {
            return Err(Error::TypeMismatch);
        }
        let a = va.integer();
        let b = vb.integer();
        let v: i32 = match op {
            IntOp::Add => a.wrapping_add(b),
            IntOp::Sub => a.wrapping_sub(b),
            IntOp::Mul => a.wrapping_mul(b),
            IntOp::Div => {
                if b == 0 {
                    return Err(Error::DivideByZero);
                }
                match a.checked_div(b) {
                    Some(q) => q,
                    None => a,
                }
            },
            IntOp::Rem => {
                if b == 0 {
                    return Err(Error::DivideByZero);
                }
                match a.checked_rem(b) {
                    Some(q) => q,
                    None => 0,
                }
            },
            IntOp::And => a & b,
            IntOp::Or => a | b,
            IntOp::Xor => a ^ b,
            IntOp::Shl => a << ((b as u32) % 32),
            IntOp::Shr => a >> ((b as u32) % 32),
            IntOp::Ushr => ((a as u32) >> ((b as u32) % 32)) as i32,
        };
        self.memory.pop();
        self.memory.pop();
        self.memory.push(Value::mk_integer(v));
        proof {
            assert(self@ =~= drop_top(old(self)@, 2).push(Value::of_int(v)));
        }
        Ok(())
    }

    /// Pops two bytes, `a` below `b`, and pushes `a op b`.
    pub fn byte_binary(&mut self, op: ByteOp) -> (r: Result<(), Error>)
        requires
            old(self).wf(),
        ensures
            prims_over(old(self)@, final(self)@),
            final(self).wf(),
            byte_binary_post(op, old(self)@, final(self)@, r),
    {
        let n = self.memory.len();
        if n < 2 {
            return Err(Error::StackUnderflow);
        }
        let va = self.memory[n - 2];
        let vb = self.memory[n - 1];
        if va.tag() != TAG_BYTE || vb.tag() != TAG_BYTE {
            return Err(Error::TypeMismatch);
        }
        let a = va.byte();
        let b = vb.byte();
        let v: u8 = match op {
            ByteOp::Add => a.wrapping_add(b),
            ByteOp::Sub => a.wrapping_sub(b),
            ByteOp::Mul => a.wrapping_mul(b),
            ByteOp::Div => {
                if b == 0 {
                    return Err(Error::DivideByZero);
                }
                a / b
            },
            ByteOp::Rem => {
                if b == 0 {
                    return Err(Error::DivideByZero);
                }
                a % b
            },
            ByteOp::And => a & b,
            ByteOp::Or => a | b,
            ByteOp::Xor => a ^ b,
            ByteOp::Shl => a << ((b as u32) % 8),
            ByteOp::Shr => a >> ((b as u32) % 8),
        };
        self.memory.pop();
        self.memory.pop();
        self.memory.push(Value::mk_byte(v));
        proof {
            assert(self@ =~= drop_top(old(self)@, 2).push(Value::byte_value(v)));
        }
        Ok(())
    }

    /// Pops two integers, `a` below `b`, and tells whether `a` and `b` compare as `c` says.
    pub fn compare(&mut self, c: Comparison) -> (r: Result<bool, Error>)
        requires
            old(self).wf(),
        ensures
            prims_over(old(self)@, final(self)@),
            final(self).wf(),
            compare_post(c, old(self)@, final(self)@, r),
    {
        let n = self.memory.len();
        if n < 2 {
            return Err(Error::StackUnderflow);
        }
        let va = self.memory[n - 2];
        let vb = self.memory[n - 1];
        if va.tag() != TAG_INTEGER || vb.tag() != TAG_INTEGER {
            return Err(Error::TypeMismatch);
        }
        let a = va.integer();
        let b = vb.integer();
        let res = match c {
            Comparison::Eq => a == b,
            Comparison::Neq => a != b,
            Comparison::Gt => a > b,
            Comparison::Ge => a >= b,
            Comparison::Lt => a < b,
            Comparison::Le => a <= b,
        };
        self.memory.pop();
        self.memory.pop();
        proof {
            assert(self@ =~= drop_top(old(self)@, 2));
        }
        Ok(res)
    }

    /// Pops two integers and pushes their wrapping sum.
    pub fn iadd(&mut self) -> (r: Result<(), Error>)
        requires
            old(self).wf(),
        ensures
            prims_over(old(self)@, final(self)@),
            final(self).wf(),
            int_binary_post(IntOp::Add, old(self)@, final(self)@, r),
    {
        self.int_binary(IntOp::Add)
    }
    /// Pops two integers and pushes their wrapping difference.
    pub fn isub(&mut self) -> (r: Result<(), Error>)
        requires
            old(self).wf(),
        ensures
            prims_over(old(self)@, final(self)@),
            final(self).wf(),
            int_binary_post(IntOp::Sub, old(self)@, final(self)@, r),
    {
        self.int_binary(IntOp::Sub)
    }
    /// Pops two integers and pushes their wrapping product.
    pub fn imul(&mut self) -> (r: Result<(), Error>)
        requires
            old(self).wf(),
        ensures
            prims_over(old(self)@, final(self)@),
            final(self).wf(),
            int_binary_post(IntOp::Mul, old(self)@, final(self)@, r),
    {
        self.int_binary(IntOp::Mul)
    }
    /// Pops two integers and pushes their quotient, rounded toward zero.
    pub fn idiv(&mut self) -> (r: Result<(), Error>)
        requires
            old(self).wf(),
        ensures
            prims_over(old(self)@, final(self)@),
            final(self).wf(),
            int_binary_post(IntOp::Div, old(self)@, final(self)@, r),
    {
        self.int_binary(IntOp::Div)
    }
    /// Pops two integers and pushes the remainder of their division.
    pub fn irem(&mut self) -> (r: Result<(), Error>)
        requires
            old(self).wf(),
        ensures
            prims_over(old(self)@, final(self)@),
            final(self).wf(),
            int_binary_post(IntOp::Rem, old(self)@, final(self)@, r),
    {
        self.int_binary(IntOp::Rem)
    }
    /// Pops two integers and pushes their bitwise and.
    pub fn iand(&mut self) -> (r: Result<(), Error>)
        requires
            old(self).wf(),
        ensures
            prims_over(old(self)@, final(self)@),
            final(self).wf(),
            int_binary_post(IntOp::And, old(self)@, final(self)@, r),
    {
        self.int_binary(IntOp::And)
    }
    /// Pops two integers and pushes their bitwise or.
    pub fn ior(&mut self) -> (r: Result<(), Error>)
        requires
            old(self).wf(),
        ensures
            prims_over(old(self)@, final(self)@),
            final(self).wf(),
            int_binary_post(IntOp::Or, old(self)@, final(self)@, r),
    {
        self.int_binary(IntOp::Or)
    }
    /// Pops two integers and pushes their bitwise exclusive or.
    pub fn ixor(&mut self) -> (r: Result<(), Error>)
        requires
            old(self).wf(),
        ensures
            prims_over(old(self)@, final(self)@),
            final(self).wf(),
            int_binary_post(IntOp::Xor, old(self)@, final(self)@, r),
    {
        self.int_binary(IntOp::Xor)
    }
    /// Pops two integers and pushes the left one shifted left.
    pub fn ishl(&mut self) -> (r: Result<(), Error>)
        requires
            old(self).wf(),
        ensures
            prims_over(old(self)@, final(self)@),
            final(self).wf(),
            int_binary_post(IntOp::Shl, old(self)@, final(self)@, r),
    {
        self.int_binary(IntOp::Shl)
    }
    /// Pops two integers and pushes the left one shifted right, keeping its sign.
    pub fn ishr(&mut self) -> (r: Result<(), Error>)
        requires
            old(self).wf(),
        ensures
            prims_over(old(self)@, final(self)@),
            final(self).wf(),
            int_binary_post(IntOp::Shr, old(self)@, final(self)@, r),
    {
        self.int_binary(IntOp::Shr)
    }
    /// Pops two integers and pushes the left one shifted right as an unsigned word.
    pub fn iushr(&mut self) -> (r: Result<(), Error>)
        requires
            old(self).wf(),
        ensures
            prims_over(old(self)@, final(self)@),
            final(self).wf(),
            int_binary_post(IntOp::Ushr, old(self)@, final(self)@, r),
    {
        self.int_binary(IntOp::Ushr)
    }
    /// Pops two bytes and pushes their sum.
    pub fn badd(&mut self) -> (r: Result<(), Error>)
        requires
            old(self).wf(),
        ensures
            prims_over(old(self)@, final(self)@),
            final(self).wf(),
            byte_binary_post(ByteOp::Add, old(self)@, final(self)@, r),
    {
        self.byte_binary(ByteOp::Add)
    }
    /// Pops two bytes and pushes their difference.
    pub fn bsub(&mut self) -> (r: Result<(), Error>)
        requires
            old(self).wf(),
        ensures
            prims_over(old(self)@, final(self)@),
            final(self).wf(),
            byte_binary_post(ByteOp::Sub, old(self)@, final(self)@, r),
    {
        self.byte_binary(ByteOp::Sub)
    }
    /// Pops two bytes and pushes their product.
    pub fn bmul(&mut self) -> (r: Result<(), Error>)
        requires
            old(self).wf(),
        ensures
            prims_over(old(self)@, final(self)@),
            final(self).wf(),
            byte_binary_post(ByteOp::Mul, old(self)@, final(self)@, r),
    {
        self.byte_binary(ByteOp::Mul)
    }
    /// Pops two bytes and pushes their quotient.
    pub fn bdiv(&mut self) -> (r: Result<(), Error>)
        requires
            old(self).wf(),
        ensures
            prims_over(old(self)@, final(self)@),
            final(self).wf(),
            byte_binary_post(ByteOp::Div, old(self)@, final(self)@, r),
    {
        self.byte_binary(ByteOp::Div)
    }
    /// Pops two bytes and pushes their remainder.
    pub fn brem(&mut self) -> (r: Result<(), Error>)
        requires
            old(self).wf(),
        ensures
            prims_over(old(self)@, final(self)@),
            final(self).wf(),
            byte_binary_post(ByteOp::Rem, old(self)@, final(self)@, r),
    {
        self.byte_binary(ByteOp::Rem)
    }
    /// Pops two bytes and pushes their bitwise and.
    pub fn band(&mut self) -> (r: Result<(), Error>)
        requires
            old(self).wf(),
        ensures
            prims_over(old(self)@, final(self)@),
            final(self).wf(),
            byte_binary_post(ByteOp::And, old(self)@, final(self)@, r),
    {
        self.byte_binary(ByteOp::And)
    }
    /// Pops two bytes and pushes their bitwise or.
    pub fn bor(&mut self) -> (r: Result<(), Error>)
        requires
            old(self).wf(),
        ensures
            prims_over(old(self)@, final(self)@),
            final(self).wf(),
            byte_binary_post(ByteOp::Or, old(self)@, final(self)@, r),
    {
        self.byte_binary(ByteOp::Or)
    }
    /// Pops two bytes and pushes their bitwise exclusive or.
    pub fn bxor(&mut self) -> (r: Result<(), Error>)
        requires
            old(self).wf(),
        ensures
            prims_over(old(self)@, final(self)@),
            final(self).wf(),
            byte_binary_post(ByteOp::Xor, old(self)@, final(self)@, r),
    {
        self.byte_binary(ByteOp::Xor)
    }
    /// Pops two bytes and pushes their left shift.
    pub fn bshl(&mut self) -> (r: Result<(), Error>)
        requires
            old(self).wf(),
        ensures
            prims_over(old(self)@, final(self)@),
            final(self).wf(),
            byte_binary_post(ByteOp::Shl, old(self)@, final(self)@, r),
    {
        self.byte_binary(ByteOp::Shl)
    }
    /// Pops two bytes and pushes their right shift.
    pub fn bshr(&mut self) -> (r: Result<(), Error>)
        requires
            old(self).wf(),
        ensures
            prims_over(old(self)@, final(self)@),
            final(self).wf(),
            byte_binary_post(ByteOp::Shr, old(self)@, final(self)@, r),
    {
        self.byte_binary(ByteOp::Shr)
    }
    /// Pops two integers and tells whether they are equal.
    pub fn ifeq(&mut self) -> (r: Result<bool, Error>)
        requires
            old(self).wf(),
        ensures
            prims_over(old(self)@, final(self)@),
            final(self).wf(),
            compare_post(Comparison::Eq, old(self)@, final(self)@, r),
    {
        self.compare(Comparison::Eq)
    }
    /// Pops two integers and tells whether they differ.
    pub fn ifneq(&mut self) -> (r: Result<bool, Error>)
        requires
            old(self).wf(),
        ensures
            prims_over(old(self)@, final(self)@),
            final(self).wf(),
            compare_post(Comparison::Neq, old(self)@, final(self)@, r),
    {
        self.compare(Comparison::Neq)
    }
    /// Pops two integers and tells whether they compare greater.
    pub fn ifgt(&mut self) -> (r: Result<bool, Error>)
        requires
            old(self).wf(),
        ensures
            prims_over(old(self)@, final(self)@),
            final(self).wf(),
            compare_post(Comparison::Gt, old(self)@, final(self)@, r),
    {
        self.compare(Comparison::Gt)
    }
    /// Pops two integers and tells whether they compare greater or equal.
    pub fn ifge(&mut self) -> (r: Result<bool, Error>)
        requires
            old(self).wf(),
        ensures
            prims_over(old(self)@, final(self)@),
            final(self).wf(),
            compare_post(Comparison::Ge, old(self)@, final(self)@, r),
    {
        self.compare(Comparison::Ge)
    }
    /// Pops two integers and tells whether they compare less.
    pub fn iflt(&mut self) -> (r: Result<bool, Error>)
        requires
            old(self).wf(),
        ensures
            prims_over(old(self)@, final(self)@),
            final(self).wf(),
            compare_post(Comparison::Lt, old(self)@, final(self)@, r),
    {
        self.compare(Comparison::Lt)
    }
    /// Pops two integers and tells whether they compare less or equal.
    pub fn ifle(&mut self) -> (r: Result<bool, Error>)
        requires
            old(self).wf(),
        ensures
            prims_over(old(self)@, final(self)@),
            final(self).wf(),
            compare_post(Comparison::Le, old(self)@, final(self)@, r),
    {
        self.compare(Comparison::Le)
    }
    /// Pops two integers, `a` below `b`, and pushes `a` to the power `b`, by squaring.
    pub fn iexp(&mut self) -> (r: Result<(), Error>)
        requires
            old(self).wf(),
        ensures
            prims_over(old(self)@, final(self)@),
            final(self).wf(),
            iexp_post(old(self)@, final(self)@, r),
    {
        let n = self.memory.len();
        if n < 2 {
            return Err(Error::StackUnderflow);
        }
        let va = self.memory[n - 2];
        let vb = self.memory[n - 1];
        if va.tag() != TAG_INTEGER || vb.tag() != TAG_INTEGER {
            return Err(Error::TypeMismatch);
        }
        let a = va.integer();
        let mut e: u32 = vb.integer() as u32;
        let mut base: i32 = a;
        let mut result: i32 = 1;
        proof {
            lemma_pow1(a as int);
            assert(pow(a as int, e as nat) == 1 * pow(a as int, e as nat));
        }
        while e != 0
            invariant
                (result as int * pow(base as int, e as nat)) % 0x1_0000_0000 == pow(
                    a as int,
                    (vb.spec_integer() as u32) as nat,
                ) % 0x1_0000_0000,
            decreases e,
        {
            proof {
                lemma_square_step(result, base, e as nat);
                assert(e & 1 == e % 2) by (bit_vector);
                assert(e >> 1 == e / 2) by (bit_vector);
            }
            if e & 1 == 1 {
                result = result.wrapping_mul(base);
            }
            e = e >> 1;
            base = base.wrapping_mul(base);
        }
        proof {
            assert(pow(base as int, 0) == 1) by {
                reveal(pow);
            }
            lemma_crop_self(result);
            assert(iexp_result(a, vb.spec_integer()) == result);
        }
        self.memory.pop();
        self.memory.pop();
        self.memory.push(Value::mk_integer(result));
        proof {
            assert(self@ =~= drop_top(old(self)@, 2).push(Value::of_int(result)));
        }
        Ok(())
    }

    /// Negates the integer on top, wrapping.
    pub fn ineg(&mut self) -> (r: Result<(), Error>)
        requires
            old(self).wf(),
        ensures
            prims_over(old(self)@, final(self)@),
            final(self).wf(),
            unary_post(old(self)@, final(self)@, r, if old(self)@.len() > 0 { ineg_result(old(self)@.last()) } else { None }),
    {
        let top = self.peek()?;
        if top.tag() != TAG_INTEGER {
            return Err(Error::TypeMismatch);
        }
        let v = Value::mk_integer(0i32.wrapping_sub(top.integer()));
        self.replace_top(v);
        Ok(())
    }

    /// Negates the byte on top, wrapping.
    pub fn bneg(&mut self) -> (r: Result<(), Error>)
        requires
            old(self).wf(),
        ensures
            prims_over(old(self)@, final(self)@),
            final(self).wf(),
            unary_post(old(self)@, final(self)@, r, if old(self)@.len() > 0 { bneg_result(old(self)@.last()) } else { None }),
    {
        let top = self.peek()?;
        if top.tag() != TAG_BYTE {
            return Err(Error::TypeMismatch);
        }
        let v = Value::mk_byte(0u8.wrapping_sub(top.byte()));
        self.replace_top(v);
        Ok(())
    }

    /// Negates the float on top by flipping its sign bit.
    pub fn fneg(&mut self) -> (r: Result<(), Error>)
        requires
            old(self).wf(),
        ensures
            prims_over(old(self)@, final(self)@),
            final(self).wf(),
            unary_post(old(self)@, final(self)@, r, if old(self)@.len() > 0 { fneg_result(old(self)@.last()) } else { None }),
    {
        let top = self.peek()?;
        if top.tag() != TAG_FLOAT {
            return Err(Error::TypeMismatch);
        }
        let v = Value::mk_float_bits(top.float_bits() ^ 0x8000_0000u32);
        self.replace_top(v);
        Ok(())
    }

    /// Replaces the number on top by 1 where it is zero and by 0 elsewhere, keeping its tag.
    pub fn is_zero(&mut self) -> (r: Result<(), Error>)
        requires
            old(self).wf(),
        ensures
            prims_over(old(self)@, final(self)@),
            final(self).wf(),
            unary_post(old(self)@, final(self)@, r, if old(self)@.len() > 0 { is_zero_result(old(self)@.last()) } else { None }),
    {
        let top = self.peek()?;
        let tag = top.tag();
        let v = if tag == TAG_BYTE {
            Value::mk_byte(if top.byte() == 0 { 1 } else { 0 })
        } else if tag == TAG_INTEGER {
            Value::mk_integer(if top.integer() == 0 { 1 } else { 0 })
        } else if tag == TAG_FLOAT {
            Value::mk_float_bits(if top.float_bits() & 0x7FFF_FFFFu32 == 0 { FLOAT_ONE_BITS } else { 0 })
        } else {
            return Err(Error::TypeMismatch);
        };
        self.replace_top(v);
        Ok(())
    }

    /// The bit patterns of the two floats on top, `a` below `b`, left in place.
    pub fn float_operands(&self) -> (r: Result<(u32, u32), Error>)
        ensures
            self@.len() < 2 ==> r == Err::<(u32, u32), Error>(Error::StackUnderflow),
            self@.len() >= 2 && !top_two_floats(self@) ==> r == Err::<(u32, u32), Error>(Error::TypeMismatch),
            top_two_floats(self@) ==> r == Ok::<(u32, u32), Error>((self@[self@.len() - 2].spec_float_bits(), self@.last().spec_float_bits())),
    {
        let n = self.memory.len();
        if n < 2 {
            return Err(Error::StackUnderflow);
        }
        let va = self.memory[n - 2];
        let vb = self.memory[n - 1];
        if va.tag() != TAG_FLOAT || vb.tag() != TAG_FLOAT {
            return Err(Error::TypeMismatch);
        }
        Ok((va.float_bits(), vb.float_bits()))
    }

    /// Replaces the two values on top by the float with pattern `bits`.
    pub fn replace_top_two_with_float(&mut self, bits: u32)
        requires
            old(self).wf(),
            old(self)@.len() >= 2,
        ensures
            prims_over(old(self)@, final(self)@),
            final(self).wf(),
            final(self)@ == drop_top(old(self)@, 2).push(Value::float_value(bits)),
    {
        self.memory.pop();
        self.memory.pop();
        self.memory.push(Value::mk_float_bits(bits));
        proof {
            assert(self@ =~= drop_top(old(self)@, 2).push(Value::float_value(bits)));
        }
    }

    /// The value on top, checked to carry `tag`, left in place.
    pub fn top_with_tag(&self, tag: u64) -> (r: Result<Value, Error>)
        ensures
            self@.len() == 0 ==> r == Err::<Value, Error>(Error::StackUnderflow),
            self@.len() > 0 && self@.last().spec_tag() != tag ==> r == Err::<Value, Error>(Error::TypeMismatch),
            self@.len() > 0 && self@.last().spec_tag() == tag ==> r == Ok::<Value, Error>(self@.last()),
    {
        let top = self.peek()?;
        if top.tag() != tag {
            return Err(Error::TypeMismatch);
        }
        Ok(top)
    }

    /// Replaces the top value by `v`.
    pub fn replace_top(&mut self, v: Value)
        requires
            old(self)@.len() > 0,
            old(self).wf(),
        ensures
            final(self)@ == drop_top(old(self)@, 1).push(v),
            final(self).wf(),
    {
        self.memory.pop();
        self.memory.push(v);
        proof {
            assert(self@ =~= drop_top(old(self)@, 1).push(v));
        }
    }
}

} // verus!
