use grape_vm::error::Error;
use grape_vm::formatting::display_value;
use grape_vm::heap::Heap;
use grape_vm::local::Local;
use grape_vm::module_file;
use grape_vm::stack::Stack;
use grape_vm::value::{Value, TAG_ARRAY, TAG_BYTE, TAG_INTEGER, TAG_NULL};

fn ints(values: &[i32]) -> Stack {
    let mut s = Stack::new();
    for v in values {
        s.push(Value::mk_integer(*v));
    }
    s
}

fn top_int(s: &Stack) -> i32 {
    s.peek().unwrap().integer()
}

#[test]
fn integer_value_round_trip() {
    for i in [0, 1, -1, 42, i32::MIN, i32::MAX] {
        let v = Value::mk_integer(i);
        assert_eq!(v.tag(), TAG_INTEGER);
        assert_eq!(v.integer(), i);
    }
    assert_eq!(Value::mk_integer(-1).0, 0x2000_0000_FFFF_FFFF);
}

#[test]
fn byte_value_keeps_eight_bits() {
    let v = Value::mk_byte(200);
    assert_eq!(v.tag(), TAG_BYTE);
    assert_eq!(v.byte(), 200);
    assert!(matches!(v.as_integer(), Err(Error::TypeMismatch)));
    assert_eq!(v.as_byte().unwrap(), 200);
}

#[test]
fn null_is_the_zero_word() {
    let n = Value::null();
    assert_eq!(n.0, 0);
    assert_eq!(n.tag(), TAG_NULL);
    assert!(!n.is_not_null());
    assert!(Value::mk_integer(0).is_not_null());
}

#[test]
fn float_patterns() {
    let one = 1.0f32.to_bits();
    let v = Value::mk_float_bits(one);
    assert_eq!(f32::from_bits(v.float_bits()), 1.0);
    let mut s = Stack::new();
    s.fconst_1();
    s.fneg().unwrap();
    assert_eq!(f32::from_bits(s.peek().unwrap().float_bits()), -1.0);
}

#[test]
fn idiv_by_zero_leaves_stack() {
    let mut s = ints(&[7, 0]);
    assert!(matches!(s.idiv(), Err(Error::DivideByZero)));
    assert_eq!(s.len(), 2);
    assert!(matches!(s.irem(), Err(Error::DivideByZero)));
    assert_eq!(s.len(), 2);
    assert_eq!(top_int(&s), 0);
}

#[test]
fn pop_on_empty_stack_underflows() {
    let mut s = Stack::new();
    assert!(matches!(s.pop(), Err(Error::StackUnderflow)));
    assert!(matches!(s.iadd(), Err(Error::StackUnderflow)));
}

#[test]
fn integer_arithmetic() {
    let mut s = ints(&[i32::MAX, 1]);
    s.iadd().unwrap();
    assert_eq!(top_int(&s), i32::MIN);
    let mut s = ints(&[-7, 2]);
    s.idiv().unwrap();
    assert_eq!(top_int(&s), -3);
    let mut s = ints(&[-7, 2]);
    s.irem().unwrap();
    assert_eq!(top_int(&s), -1);
    let mut s = ints(&[i32::MIN, -1]);
    s.idiv().unwrap();
    assert_eq!(top_int(&s), i32::MIN);
    let mut s = ints(&[1, 33]);
    s.ishl().unwrap();
    assert_eq!(top_int(&s), 2);
    let mut s = ints(&[-8, 1]);
    s.ishr().unwrap();
    assert_eq!(top_int(&s), -4);
    let mut s = ints(&[-8, 28]);
    s.iushr().unwrap();
    assert_eq!(top_int(&s), 15);
    let mut s = ints(&[i32::MIN]);
    s.ineg().unwrap();
    assert_eq!(top_int(&s), i32::MIN);
    let mut s = ints(&[6, 3]);
    s.ixor().unwrap();
    assert_eq!(top_int(&s), 5);
}

#[test]
fn integer_power() {
    let mut s = ints(&[2, 10]);
    s.iexp().unwrap();
    assert_eq!(top_int(&s), 1024);
    let mut s = ints(&[3, 0]);
    s.iexp().unwrap();
    assert_eq!(top_int(&s), 1);
    let mut s = ints(&[2, 31]);
    s.iexp().unwrap();
    assert_eq!(top_int(&s), i32::MIN);
    let mut s = ints(&[2, 32]);
    s.iexp().unwrap();
    assert_eq!(top_int(&s), 0);
    let mut s = ints(&[-3, 3]);
    s.iexp().unwrap();
    assert_eq!(top_int(&s), -27);
}

#[test]
fn comparisons_and_mismatch() {
    let mut s = ints(&[1, 2]);
    assert_eq!(s.iflt().unwrap(), true);
    assert_eq!(s.len(), 0);
    let mut s = ints(&[2, 2]);
    assert_eq!(s.ifneq().unwrap(), false);
    let mut s = Stack::new();
    s.push(Value::mk_byte(1));
    s.push(Value::mk_integer(1));
    assert!(matches!(s.iadd(), Err(Error::TypeMismatch)));
    assert_eq!(s.len(), 2);
}

#[test]
fn byte_arithmetic() {
    let mut s = Stack::new();
    s.push(Value::mk_byte(250));
    s.push(Value::mk_byte(10));
    s.badd().unwrap();
    assert_eq!(s.peek().unwrap().byte(), 4);
    s.push(Value::mk_byte(6));
    s.bxor().unwrap();
    assert_eq!(s.peek().unwrap().byte(), 2);
    s.bneg().unwrap();
    assert_eq!(s.peek().unwrap().byte(), 254);
    s.push(Value::mk_byte(0));
    assert!(matches!(s.bdiv(), Err(Error::DivideByZero)));
}

#[test]
fn is_zero_keeps_tag() {
    let mut s = ints(&[0]);
    s.is_zero().unwrap();
    assert_eq!(top_int(&s), 1);
    let mut s = Stack::new();
    s.push(Value::mk_byte(3));
    s.is_zero().unwrap();
    assert_eq!(s.peek().unwrap().tag(), TAG_BYTE);
    assert_eq!(s.peek().unwrap().byte(), 0);
}

#[test]
fn local_frames() {
    let mut l = Local::new(2);
    assert_eq!(l.len(), 2);
    let saved = l.push_frame(3);
    assert_eq!(saved, 0);
    assert_eq!(l.base(), 2);
    assert_eq!(l.len(), 5);
    l.store(1, Value::mk_integer(9));
    assert_eq!(l.load(1).integer(), 9);
    l.iinc(1, -10).unwrap();
    assert_eq!(l.load(1).integer(), -1);
    l.store(0, Value::mk_byte(1));
    assert!(matches!(l.iinc(0, 1), Err(Error::TypeMismatch)));
    l.pop_frame(saved);
    assert_eq!(l.len(), 2);
    assert_eq!(l.base(), 0);
    assert_eq!(l.load(0).integer(), 0);
}

#[test]
fn arrays_of_size_zero_and_bounds() {
    let mut h = Heap::new();
    let a = h.alloc_array(0).unwrap();
    assert_eq!(a.tag(), TAG_ARRAY);
    assert_eq!(h.array_len(a).unwrap(), 0);
    assert!(matches!(h.array_get(a, 0), Err(Error::IndexOutOfBounds)));
    assert!(matches!(h.array_set(a, 0, Value::null()), Err(Error::IndexOutOfBounds)));
    let b = h.alloc_array(2).unwrap();
    h.array_set(b, 1, Value::mk_integer(0)).unwrap();
    assert_eq!(h.array_get(b, 0).unwrap().0, 0);
    assert_eq!(h.array_get(b, 1).unwrap().integer(), 0);
    assert!(matches!(h.array_get(b, 2), Err(Error::IndexOutOfBounds)));
    assert!(matches!(h.array_get(b, -1), Err(Error::IndexOutOfBounds)));
    assert!(matches!(h.alloc_array(-1), Err(Error::IndexOutOfBounds)));
    assert!(matches!(h.array_get(Value::null(), 0), Err(Error::NullDereference)));
    assert!(matches!(h.array_get(Value::mk_integer(1), 0), Err(Error::TypeMismatch)));
}

#[test]
fn dictionaries_by_word() {
    let mut h = Heap::new();
    let d = h.alloc_dict().unwrap();
    let k = Value::mk_integer(5);
    assert_eq!(h.get_dict(d, k).unwrap().0, 0);
    h.set_dict(d, k, Value::mk_integer(1)).unwrap();
    h.set_dict(d, k, Value::mk_integer(2)).unwrap();
    h.set_dict(d, Value::mk_byte(5), Value::mk_integer(3)).unwrap();
    assert_eq!(h.get_dict(d, k).unwrap().integer(), 2);
    assert_eq!(h.get_dict(d, Value::mk_byte(5)).unwrap().integer(), 3);
    assert_eq!(h.dict_entries(d).unwrap().len(), 2);
}

#[test]
fn gc_frees_what_no_root_reaches() {
    let mut h = Heap::new();
    let s1 = h.alloc_string("kept".to_string()).unwrap();
    let _s2 = h.alloc_string("lost".to_string()).unwrap();
    let arr = h.alloc_array(1).unwrap();
    let inner = h.alloc_string("inner".to_string()).unwrap();
    h.array_set(arr, 0, inner).unwrap();
    assert_eq!(h.live_count(), 4);
    let mut stack = Stack::new();
    stack.push(s1);
    let mut local = Local::new(1);
    local.store(0, arr);
    h.gc(&stack, &local);
    assert_eq!(h.live_count(), 3);
    assert_eq!(h.string_contents(s1).unwrap(), "kept");
    assert_eq!(h.string_contents(inner).unwrap(), "inner");
    let again = h.alloc_string("again".to_string()).unwrap();
    assert_eq!(h.live_count(), 4);
    assert_eq!(h.string_contents(again).unwrap(), "again");
    stack.clear();
    local.clear();
    h.gc(&stack, &local);
    assert_eq!(h.live_count(), 0);
}

#[test]
fn gc_handles_cycles() {
    let mut h = Heap::new();
    let a = h.alloc_array(1).unwrap();
    let b = h.alloc_array(1).unwrap();
    h.array_set(a, 0, b).unwrap();
    h.array_set(b, 0, a).unwrap();
    let mut stack = Stack::new();
    stack.push(a);
    let local = Local::new(0);
    h.gc(&stack, &local);
    assert_eq!(h.live_count(), 2);
    stack.clear();
    h.gc(&stack, &local);
    assert_eq!(h.live_count(), 0);
}

#[test]
fn module_paths() {
    assert_eq!(module_file::from("std:out"), "std/out.grape");
    assert_eq!(module_file::from("main"), "main.grape");
    assert_eq!(module_file::from("a:b:c"), "a/b/c.grape");
}

fn joined(pieces: Vec<grape_vm::formatting::Piece>) -> String {
    let mut s = String::new();
    for p in pieces {
        match p {
            grape_vm::formatting::Piece::Text(t) => s.push_str(&t),
            grape_vm::formatting::Piece::Float(b) => s.push_str(&f32::from_bits(b).to_string()),
        }
    }
    s
}

#[test]
fn printed_forms() {
    let mut h = Heap::new();
    assert_eq!(joined(display_value(Value::mk_integer(-5), &h)), "-5");
    assert_eq!(joined(display_value(Value::mk_integer(i32::MIN), &h)), "-2147483648");
    assert_eq!(joined(display_value(Value::mk_byte(255), &h)), "255");
    assert_eq!(joined(display_value(Value::null(), &h)), "null");
    assert_eq!(joined(display_value(Value::mk_float_bits(2.5f32.to_bits()), &h)), "2.5");
    let a = h.alloc_array(2).unwrap();
    h.array_set(a, 1, Value::mk_integer(0)).unwrap();
    assert_eq!(joined(display_value(a, &h)), "[@000000000000;0;]");
    let s = h.alloc_string("hi".to_string()).unwrap();
    assert_eq!(joined(display_value(s, &h)), "hi");
    let d = h.alloc_dict().unwrap();
    h.set_dict(d, Value::mk_integer(1), Value::mk_byte(2)).unwrap();
    assert_eq!(joined(display_value(d, &h)), "dict{1 -> 2;}");
    assert_eq!(joined(vec![grape_vm::formatting::debug_value(Value::mk_reference(7, 0xab))]), "@0000000000ab");
}

#[test]
fn refs_keep_only_references() {
    use_refs();
}

fn use_refs() {
    let mut h = Heap::new();
    let s = h.alloc_string("x".to_string()).unwrap();
    let a = h.alloc_array(3).unwrap();
    h.array_set(a, 0, Value::mk_integer(4)).unwrap();
    h.array_set(a, 1, s).unwrap();
    let arr = grape_vm::heap::ObjArray { arr: h.array_values(a).unwrap().clone() };
    let refs = arr.refs();
    assert_eq!(refs, vec![s]);
    assert_eq!(arr.values().len(), 3);
    let dict = grape_vm::heap::ObjDict { fields: vec![(Value::mk_integer(1), s), (s, Value::null())] };
    assert_eq!(dict.refs(), vec![s, s]);
    let inst = grape_vm::heap::ObjClass { class_name: "C".to_string(), fields: vec![Value::null(), a] };
    assert_eq!(inst.refs(), vec![a]);
}
