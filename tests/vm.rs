use grape_vm::arena::LoaderArena;
use grape_vm::class::ClassBuilder;
use grape_vm::error::Error;
use grape_vm::function::FunctionBuilder;
use grape_vm::loader::Loader;
use grape_vm::module::{Module, ModuleBuilder};
use grape_vm::opcode;
use grape_vm::pool_entry::PoolEntry;
use grape_vm::runtime::{BootOptions, CleanGc, Event, FloatOp, Runtime, StackTrace};
use grape_vm::formatting::Piece;
use grape_vm::value::Value;

fn arena() -> &'static LoaderArena {
    Box::leak(Box::new(LoaderArena::new()))
}

fn boot(modules: Vec<Module>) -> Runtime<'static> {
    let mut loader = Loader::new(arena());
    for m in modules {
        loader.provide(m).unwrap();
    }
    Runtime::boot(BootOptions { entrypoint_module: None, context: loader.to_context() }).unwrap()
}

fn render(rt: &Runtime, v: Value) -> String {
    let mut s = String::new();
    for p in rt.display(v).unwrap() {
        match p {
            Piece::Text(t) => s.push_str(&t),
            Piece::Float(bits) => s.push_str(&f32::from_bits(bits).to_string()),
        }
    }
    s
}

/// Runs to the end; returns what `println` printed and the deepest call depth seen.
fn run(rt: &mut Runtime) -> Result<(Vec<String>, usize), Error> {
    let mut out = Vec::new();
    let mut depth = 0;
    loop {
        depth = depth.max(rt.call_depth());
        match rt.run(1)? {
            Event::Halted => return Ok((out, depth)),
            Event::Paused => {}
            Event::Native { unit, function } => {
                assert_eq!(unit, "std:out");
                if function == "println" {
                    let v = rt.load_local(0).unwrap();
                    out.push(render(rt, v));
                }
                rt.finish_native(None).unwrap();
            }
            Event::Float { op, lhs, rhs } => {
                let a = f32::from_bits(lhs);
                let b = f32::from_bits(rhs);
                let r = match op {
                    FloatOp::Add => (a + b).to_bits(),
                    FloatOp::Sub => (a - b).to_bits(),
                    FloatOp::Mul => (a * b).to_bits(),
                    FloatOp::Div => (a / b).to_bits(),
                    FloatOp::Rem => (a % b).to_bits(),
                    FloatOp::IntToFloat => (lhs as i32 as f32).to_bits(),
                    FloatOp::FloatToInt => (a as i32) as u32,
                };
                rt.finish_float(r).unwrap();
            }
        }
    }
}

fn main_module(constants: Vec<PoolEntry>, functions: Vec<(&str, u16, u8, Vec<u8>)>) -> Module {
    let mut b = ModuleBuilder::new().with_name("main");
    for c in constants {
        b = b.with_constant(c);
    }
    for (name, locals, args, code) in functions {
        b = b.with_function(
            FunctionBuilder::new().with_name(name).with_locals(locals).with_arguments(args).with_bytecode(&code).build(),
        );
    }
    b.build()
}

fn fib_module() -> Module {
    main_module(
        vec![
            PoolEntry::Module("std:out".to_string()),
            PoolEntry::Function("fib".to_string()),
            PoolEntry::Function("println".to_string()),
        ],
        vec![
            ("main", 0, 0, vec![opcode::I_PUSH_BYTE, 10, opcode::CALL, 0, 0, 0, 2, opcode::CALL, 0, 1, 0, 3, opcode::HALT]),
            (
                "fib",
                1,
                1,
                vec![
                    opcode::LOAD_0,
                    opcode::I_PUSH_BYTE,
                    2,
                    opcode::I_IFLT,
                    0,
                    25,
                    opcode::LOAD_0,
                    opcode::ICONST_1,
                    opcode::ISUB,
                    opcode::CALL,
                    0,
                    0,
                    0,
                    2,
                    opcode::LOAD_0,
                    opcode::I_PUSH_BYTE,
                    2,
                    opcode::ISUB,
                    opcode::CALL,
                    0,
                    0,
                    0,
                    2,
                    opcode::IADD,
                    opcode::RETURN,
                    opcode::LOAD_0,
                    opcode::RETURN,
                ],
            ),
        ],
    )
}

#[test]
fn recursive_fibonacci() {
    let mut rt = boot(vec![fib_module()]);
    let (out, _) = run(&mut rt).unwrap();
    assert_eq!(out, vec!["55".to_string()]);
    assert_eq!(rt.heap().live_count(), 0);
}

#[test]
fn factorial_by_tail_call() {
    let m = main_module(
        vec![
            PoolEntry::Module("std:out".to_string()),
            PoolEntry::Function("tail_fact".to_string()),
            PoolEntry::Function("println".to_string()),
        ],
        vec![
            (
                "main",
                0,
                0,
                vec![opcode::I_PUSH_BYTE, 5, opcode::ICONST_1, opcode::CALL, 0, 0, 0, 2, opcode::CALL, 0, 1, 0, 3, opcode::HALT],
            ),
            (
                "tail_fact",
                2,
                2,
                vec![
                    opcode::LOAD_0,
                    opcode::ICONST_0,
                    opcode::I_IFEQ,
                    0,
                    12,
                    opcode::LOAD_0,
                    opcode::ICONST_1,
                    opcode::ISUB,
                    opcode::LOAD_1,
                    opcode::LOAD_0,
                    opcode::IMUL,
                    opcode::TAILCALL,
                    opcode::LOAD_1,
                    opcode::RETURN,
                ],
            ),
        ],
    );
    let mut rt = boot(vec![m]);
    let (out, depth) = run(&mut rt).unwrap();
    assert_eq!(out, vec!["120".to_string()]);
    assert!(depth <= 1);
}

#[test]
fn array_mutation() {
    let m = main_module(
        vec![PoolEntry::Module("std:out".to_string()), PoolEntry::Function("println".to_string())],
        vec![(
            "main",
            1,
            0,
            vec![
                opcode::I_PUSH_BYTE,
                2,
                opcode::NEW_ARRAY,
                opcode::STORE_0,
                opcode::LOAD_0,
                opcode::ICONST_1,
                opcode::ICONST_0,
                opcode::ARRAY_SET,
                opcode::LOAD_0,
                opcode::CALL,
                0,
                1,
                0,
                2,
                opcode::HALT,
            ],
        )],
    );
    let mut rt = boot(vec![m]);
    let (out, _) = run(&mut rt).unwrap();
    assert_eq!(out, vec!["[@000000000000;0;]".to_string()]);
}

#[test]
fn object_field_round_trip() {
    let class = ClassBuilder::new()
        .with_name("Box")
        .with_field("value")
        .with_constant(PoolEntry::Field("value".to_string()))
        .with_method(
            FunctionBuilder::new()
                .with_name("new")
                .with_locals(2)
                .with_arguments(1)
                .with_bytecode(&[opcode::LOAD_0, opcode::LOAD_1, opcode::SET_FIELD, 0, 1, opcode::RETURN])
                .build(),
        )
        .build();
    let mut m = main_module(
        vec![
            PoolEntry::Class("Box".to_string()),
            PoolEntry::Field("value".to_string()),
            PoolEntry::Module("std:out".to_string()),
            PoolEntry::Function("println".to_string()),
        ],
        vec![(
            "main",
            1,
            0,
            vec![
                opcode::I_PUSH_BYTE,
                42,
                opcode::NEW,
                0,
                1,
                opcode::STORE_0,
                opcode::LOAD_0,
                opcode::GET_FIELD,
                0,
                2,
                opcode::CALL,
                0,
                3,
                0,
                4,
                opcode::HALT,
            ],
        )],
    );
    m.classes.push(class);
    let mut rt = boot(vec![m]);
    let (out, _) = run(&mut rt).unwrap();
    assert_eq!(out, vec!["42".to_string()]);
}

#[test]
fn cross_module_load() {
    let main = main_module(
        vec![
            PoolEntry::Module("mod_a".to_string()),
            PoolEntry::Function("get".to_string()),
            PoolEntry::Module("std:out".to_string()),
            PoolEntry::Function("println".to_string()),
        ],
        vec![("main", 0, 0, vec![opcode::CALL, 0, 1, 0, 2, opcode::CALL, 0, 3, 0, 4, opcode::HALT])],
    );
    let mod_a = ModuleBuilder::new()
        .with_name("mod_a")
        .with_constant(PoolEntry::Module("main".to_string()))
        .with_function(
            FunctionBuilder::new().with_name("get").with_locals(0).with_arguments(0).with_bytecode(&[opcode::I_PUSH_BYTE, 7, opcode::RETURN]).build(),
        )
        .build();
    let files = vec![("main.grape".to_string(), main.write().unwrap()), ("mod_a.grape".to_string(), mod_a.write().unwrap())];
    let mut loader = Loader::new(arena());
    loader.load_path("main");
    let mut asked = Vec::new();
    while let Some(name) = loader.next_wanted() {
        let path = grape_vm::module_file::from(&name);
        asked.push(name);
        let bytes = &files.iter().find(|(p, _)| *p == path).unwrap().1;
        loader.provide(Module::read(bytes).unwrap()).unwrap();
    }
    assert_eq!(asked, vec!["main".to_string(), "mod_a".to_string()]);
    assert!(matches!(loader.provide(Module::read(&files[1].1).unwrap()), Err(Error::ModuleAlreadyExists(_))));
    loader.load_path("mod_a");
    assert!(loader.next_wanted().is_none());
    let mut rt = Runtime::boot(BootOptions { entrypoint_module: None, context: loader.to_context() }).unwrap();
    let (out, _) = run(&mut rt).unwrap();
    assert_eq!(out, vec!["7".to_string()]);
}

#[test]
fn duplicate_class_is_refused() {
    let mut a = ModuleBuilder::new().with_name("a").build();
    a.classes.push(ClassBuilder::new().with_name("C").build());
    let mut b = ModuleBuilder::new().with_name("b").build();
    b.classes.push(ClassBuilder::new().with_name("C").build());
    let mut loader = Loader::new(arena());
    loader.provide(a).unwrap();
    assert!(matches!(loader.provide(b), Err(Error::ClassAlreadyExists(_))));
}

#[test]
fn gc_reclaims_unreachable_strings() {
    let m = main_module(
        vec![PoolEntry::Function("allocs_string".to_string()), PoolEntry::String("Hello".to_string())],
        vec![
            ("main", 1, 0, vec![opcode::LOADCONST, 2, opcode::STORE_0, opcode::CALL, 0, 0, 0, 1, opcode::HALT]),
            (
                "allocs_string",
                1,
                0,
                vec![
                    opcode::LOADCONST,
                    2,
                    opcode::STORE_0,
                    opcode::ICONST_0,
                    opcode::ICONST_0,
                    opcode::IADD,
                    opcode::POP,
                    opcode::RETURN,
                ],
            ),
        ],
    );
    let mut rt = boot(vec![m]);
    run(&mut rt).unwrap();
    assert_eq!(rt.heap().live_count(), 2);
    rt.collect_garbage();
    assert_eq!(rt.heap().live_count(), 1);
    CleanGc.visit(&mut rt);
    assert_eq!(rt.heap().live_count(), 0);
}

fn single(code: Vec<u8>, constants: Vec<PoolEntry>) -> Result<(Vec<String>, usize), Error> {
    let mut rt = boot(vec![main_module(constants, vec![("main", 1, 0, code)])]);
    run(&mut rt)
}

#[test]
fn loadconst_of_a_reference_entry_fails() {
    let r = single(vec![opcode::LOADCONST, 0, opcode::HALT], vec![]);
    assert!(matches!(r, Err(Error::InvalidConstantPoolEntry(0))));
    let r = single(vec![opcode::LOADCONST, 9, opcode::HALT], vec![]);
    assert!(matches!(r, Err(Error::InvalidConstantPoolEntry(9))));
}

#[test]
fn pop_of_empty_stack_fails() {
    assert!(matches!(single(vec![opcode::POP, opcode::HALT], vec![]), Err(Error::StackUnderflow)));
}

#[test]
fn division_by_zero_in_program() {
    let r = single(vec![opcode::I_PUSH_BYTE, 1, opcode::ICONST_0, opcode::IDIV, opcode::HALT], vec![]);
    assert!(matches!(r, Err(Error::DivideByZero)));
}

#[test]
fn empty_array_bounds_in_program() {
    let r = single(vec![opcode::ICONST_0, opcode::NEW_ARRAY, opcode::ICONST_0, opcode::ARRAY_GET, opcode::HALT], vec![]);
    assert!(matches!(r, Err(Error::IndexOutOfBounds)));
}

#[test]
fn unknown_opcode_and_truncated_code() {
    assert!(matches!(single(vec![0xEE], vec![]), Err(Error::UnknownOpcode(0xEE))));
    assert!(matches!(single(vec![opcode::ICONST_0], vec![]), Err(Error::MalformedModule)));
}

#[test]
fn float_arithmetic_through_host() {
    let r = single(
        vec![opcode::FCONST_1, opcode::FCONST_1, opcode::FADD, opcode::F2I, opcode::STORE_0, opcode::LOAD_0, opcode::CALL, 0, 1, 0, 2, opcode::HALT],
        vec![PoolEntry::Module("std:out".to_string()), PoolEntry::Function("println".to_string())],
    );
    assert_eq!(r.unwrap().0, vec!["2".to_string()]);
}

#[test]
fn dictionary_in_program() {
    let r = single(
        vec![
            opcode::NEW_DICT,
            opcode::STORE_0,
            opcode::LOAD_0,
            opcode::I_PUSH_BYTE,
            3,
            opcode::I_PUSH_BYTE,
            9,
            opcode::SET_DICT,
            opcode::LOAD_0,
            opcode::I_PUSH_BYTE,
            3,
            opcode::GET_DICT,
            opcode::CALL,
            0,
            1,
            0,
            2,
            opcode::HALT,
        ],
        vec![PoolEntry::Module("std:out".to_string()), PoolEntry::Function("println".to_string())],
    );
    assert_eq!(r.unwrap().0, vec!["9".to_string()]);
}

#[test]
fn loop_with_iinc_and_goto() {
    let r = single(
        vec![
            opcode::ICONST_0,
            opcode::STORE_0,
            opcode::LOAD_0,
            opcode::I_PUSH_BYTE,
            5,
            opcode::I_IFGE,
            0,
            14,
            opcode::IINC,
            0,
            1,
            opcode::GOTO,
            0,
            2,
            opcode::LOAD_0,
            opcode::CALL,
            0,
            1,
            0,
            2,
            opcode::HALT,
        ],
        vec![PoolEntry::Module("std:out".to_string()), PoolEntry::Function("println".to_string())],
    );
    assert_eq!(r.unwrap().0, vec!["5".to_string()]);
}

#[test]
fn stack_trace_lists_frames() {
    let m = main_module(
        vec![PoolEntry::Function("boom".to_string())],
        vec![("main", 0, 0, vec![opcode::CALL, 0, 0, 0, 1, opcode::HALT]), ("boom", 0, 0, vec![opcode::POP])],
    );
    let mut rt = boot(vec![m]);
    assert!(matches!(rt.run(100), Err(Error::StackUnderflow)));
    let trace = StackTrace.visit(&rt);
    assert_eq!(trace.len(), 2);
    assert_eq!(trace[0].function, "boom");
    assert_eq!(trace[1].function, "main");
    assert_eq!(trace[1].ip, 5);
}

#[test]
fn lookup_errors() {
    let r = single(vec![opcode::CALL, 0, 1, 0, 2, opcode::HALT], vec![PoolEntry::Module("nowhere".to_string()), PoolEntry::Function("f".to_string())]);
    assert!(matches!(r, Err(Error::ModuleNotFound(n)) if n == "nowhere"));
    let r = single(vec![opcode::CALL, 0, 0, 0, 1, opcode::HALT], vec![PoolEntry::Function("missing".to_string())]);
    assert!(matches!(r, Err(Error::FunctionNotFound(n)) if n == "missing"));
    let r = single(vec![opcode::NEW, 0, 1, opcode::HALT], vec![PoolEntry::Class("Nope".to_string())]);
    assert!(matches!(r, Err(Error::ClassNotFound(n)) if n == "Nope"));
    let r = single(vec![opcode::CONST_NULL, opcode::ICONST_0, opcode::ARRAY_GET, opcode::HALT], vec![]);
    assert!(matches!(r, Err(Error::NullDereference)));
    let r = single(vec![opcode::CALL, 0, 0, 0, 0, opcode::HALT], vec![]);
    assert!(matches!(r, Err(Error::InvalidConstantPoolEntry(0))));
}

#[test]
fn missing_field_and_stack_overflow() {
    let class = ClassBuilder::new()
        .with_name("P")
        .with_method(FunctionBuilder::new().with_name("new").with_locals(1).with_arguments(0).with_bytecode(&[opcode::RETURN]).build())
        .build();
    let mut m = main_module(
        vec![PoolEntry::Class("P".to_string()), PoolEntry::Field("x".to_string())],
        vec![("main", 0, 0, vec![opcode::NEW, 0, 1, opcode::GET_FIELD, 0, 2, opcode::HALT])],
    );
    m.classes.push(class);
    let mut rt = boot(vec![m]);
    assert!(matches!(run(&mut rt), Err(Error::FieldNotFound(n)) if n == "x"));
    let r = single(vec![opcode::ICONST_1, opcode::GOTO, 0, 0], vec![]);
    assert!(matches!(r, Err(Error::StackOverflow)));
}
