use grape_vm::class::ClassBuilder;
use grape_vm::error::Error;
use grape_vm::function::{Code, Function, FunctionBuilder};
use grape_vm::module::{Module, ModuleBuilder, MODULE_MAGIC};
use grape_vm::pool_entry::PoolEntry;

fn sample() -> Module {
    let mut m = ModuleBuilder::new()
        .with_name("bytecodes:main")
        .with_constant(PoolEntry::String("héllo".to_string()))
        .with_constant(PoolEntry::Integer(-5))
        .with_constant(PoolEntry::Float(3.5f32.to_bits()))
        .with_constant(PoolEntry::Function("fib".to_string()))
        .with_constant(PoolEntry::Field("value".to_string()))
        .with_function(
            FunctionBuilder::new()
                .with_name("main")
                .with_locals(2)
                .with_arguments(0)
                .with_bytecode(&[0x14, 10, 0x00])
                .build(),
        )
        .with_function(
            FunctionBuilder::new().with_name("snd").with_locals(2).with_arguments(2).with_bytecode(&[0x09, 0x01]).build(),
        )
        .build();
    let class = ClassBuilder::new()
        .with_name("Box")
        .with_field("value")
        .with_field("other")
        .with_field("value")
        .with_method(FunctionBuilder::new().with_name("new").with_locals(2).with_arguments(1).with_bytecode(&[0x01]).build())
        .build();
    m.classes.push(class);
    m
}

fn same_entry(a: &PoolEntry, b: &PoolEntry) -> bool {
    match (a, b) {
        (PoolEntry::String(x), PoolEntry::String(y)) => x == y,
        (PoolEntry::Integer(x), PoolEntry::Integer(y)) => x == y,
        (PoolEntry::Module(x), PoolEntry::Module(y)) => x == y,
        (PoolEntry::Float(x), PoolEntry::Float(y)) => x == y,
        (PoolEntry::Function(x), PoolEntry::Function(y)) => x == y,
        (PoolEntry::Class(x), PoolEntry::Class(y)) => x == y,
        (PoolEntry::Field(x), PoolEntry::Field(y)) => x == y,
        _ => false,
    }
}

fn same_function(a: &Function, b: &Function) -> bool {
    let code = match (&a.code, &b.code) {
        (Code::Bytecode(x), Code::Bytecode(y)) => x == y,
        (Code::Native, Code::Native) => true,
        _ => false,
    };
    a.name == b.name && a.locals == b.locals && a.arguments == b.arguments && code
}

#[test]
fn module_round_trip() {
    let m = sample();
    let bytes = m.write().unwrap();
    assert_eq!(&bytes[0..4], b"uvas");
    assert_eq!(u32::from_be_bytes([bytes[0], bytes[1], bytes[2], bytes[3]]), MODULE_MAGIC);
    let back = Module::read(&bytes).unwrap();
    assert_eq!(back.name, m.name);
    assert_eq!(back.constants.len(), m.constants.len());
    for (a, b) in back.constants.iter().zip(m.constants.iter()) {
        assert!(same_entry(a, b));
    }
    assert_eq!(back.functions.len(), 2);
    for (a, b) in back.functions.iter().zip(m.functions.iter()) {
        assert!(same_function(a, b));
    }
    assert_eq!(back.classes.len(), 1);
    assert_eq!(back.classes[0].name, "Box");
    assert_eq!(back.classes[0].fields, vec!["value".to_string(), "other".to_string()]);
    assert_eq!(back.classes[0].field(&"other".to_string()).unwrap().offset, 1);
    assert!(same_function(&back.classes[0].methods[0], &m.classes[0].methods[0]));
    assert_eq!(back.write().unwrap(), bytes);
}

#[test]
fn module_layout_bytes() {
    let m = ModuleBuilder::new()
        .with_name("m")
        .with_function(FunctionBuilder::new().with_name("f").with_locals(1).with_arguments(1).with_bytecode(&[1]).build())
        .build();
    let bytes = m.write().unwrap();
    let expected: Vec<u8> = vec![
        b'u', b'v', b'a', b's', 0, 1, b'm', 0, 1, 3, 0, 1, b'm', 0, 1, 0, 1, b'f', 0, 1, 1, 0, 1, 1, 0, 0,
    ];
    assert_eq!(bytes, expected);
}

#[test]
fn read_rejects_bad_input() {
    let bytes = sample().write().unwrap();
    let mut bad = bytes.clone();
    bad[0] = b'x';
    assert!(matches!(Module::read(&bad), Err(Error::MalformedModule)));
    assert!(matches!(Module::read(&bytes[..bytes.len() - 1]), Err(Error::MalformedModule)));
    assert!(matches!(Module::read(&[]), Err(Error::MalformedModule)));
    let not_utf8: Vec<u8> = vec![b'u', b'v', b'a', b's', 0, 1, 0xFF, 0, 0, 0, 0, 0, 0];
    assert!(matches!(Module::read(&not_utf8), Err(Error::MalformedModule)));
    let bad_tag: Vec<u8> = vec![b'u', b'v', b'a', b's', 0, 1, b'm', 0, 1, 9, 0, 0, 0, 0];
    assert!(matches!(Module::read(&bad_tag), Err(Error::MalformedModule)));
}

#[test]
fn native_functions_are_not_written() {
    let m = ModuleBuilder::new().with_name("n").with_function(Function::native("print", 1)).build();
    assert!(matches!(m.write(), Err(Error::MalformedModule)));
}

#[test]
fn pool_entry_bytes() {
    let mut out = Vec::new();
    PoolEntry::Integer(-2).write(&mut out);
    assert_eq!(out, vec![2, 0xFF, 0xFF, 0xFF, 0xFE]);
    let (e, p) = PoolEntry::read(&out, 0).unwrap();
    assert_eq!(p, 5);
    assert!(matches!(e, PoolEntry::Integer(-2)));
    let mut out = Vec::new();
    PoolEntry::Class("Box".to_string()).write(&mut out);
    assert_eq!(out, vec![6, 0, 3, b'B', b'o', b'x']);
}
