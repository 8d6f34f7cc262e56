use vstd::prelude::*;

use crate::error::Error;
use crate::read_bytes::{read_string, read_u16, read_u8};
use crate::write_bytes::{
    concat_bytes, has_at, lemma_concat_first, lemma_concat_push, lemma_concat_split,
    lemma_has_at_concat, str_bytes, str_fits, u16_bytes, write_all, write_str, write_u16, write_u8,
};

verus! {

/// The body of a function: bytecode, or a built-in that the host runs.
#[derive(Clone, Debug)]
pub enum Code {
    Bytecode(Vec<u8>),
    Native,
}

/// A function: its name, the slots of its frame, how many of them are arguments, and its body.
#[derive(Clone, Debug)]
pub struct Function {
    pub name: String,
    pub locals: u16,
    pub arguments: u8,
    pub code: Code,
}

pub struct FunctionModel {
    pub name: Seq<char>,
    pub locals: u16,
    pub arguments: u8,
    /// The bytecode; `None` for a built-in.
    pub code: Option<Seq<u8>>,
}

impl View for Function {
    type V = FunctionModel;

    open spec fn view(&self) -> FunctionModel {
        FunctionModel {
            name: self.name@,
            locals: self.locals,
            arguments: self.arguments,
            code: match self.code {
                Code::Bytecode(b) => Some(b@),
                Code::Native => None,
            },
        }
    }
}

/// The function can be written: it has bytecode, and its name and code fit their prefixes.
pub open spec fn function_fits(f: FunctionModel) -> bool {
    &&& str_fits(f.name)
    &&& f.code matches Some(c) && c.len() <= 0xFFFF
}

/// A function as written: name, locals, arguments, code length, code.
pub open spec fn function_bytes(f: FunctionModel) -> Seq<u8> {
    let c = match f.code {
        Some(c) => c,
        None => Seq::empty(),
    };
    str_bytes(f.name) + (u16_bytes(f.locals) + (seq![f.arguments] + (u16_bytes(c.len() as u16) + c)))
}

pub open spec fn functions_view(v: Seq<Function>) -> Seq<FunctionModel> {
    v.map_values(|f: Function| f@)
}

pub open spec fn functions_fit(s: Seq<FunctionModel>) -> bool {
    forall|i: int| 0 <= i < s.len() ==> function_fits(#[trigger] s[i])
}

pub open spec fn functions_bytes(s: Seq<FunctionModel>) -> Seq<u8> {
    concat_bytes(s, |f: FunctionModel| function_bytes(f))
}

/// Copies `n` bytes from `pos` on.
pub fn read_bytes_exact(b: &[u8], pos: usize, n: usize) -> (r: Result<(Vec<u8>, usize), Error>)
    ensures
        pos + n <= b@.len() ==> (r matches Ok((v, p)) && p == pos + n && v@ == b@.subrange(pos as int, pos + n)),
        pos + n > b@.len() ==> r == Err::<(Vec<u8>, usize), Error>(Error::MalformedModule),
{
    if pos > b.len() || b.len() - pos < n {
        return Err(Error::MalformedModule);
    }
    let blen = b.len();
    let mut v: Vec<u8> = Vec::new();
    let mut i: usize = 0;
    while i < n
        invariant
            i <= n,
            pos + n <= b@.len(),
            blen == b@.len(),
            v@ == b@.subrange(pos as int, pos + i),
        decreases n - i,
    {
        v.push(b[pos + i]);
        i = i + 1;
        assert(v@ =~= b@.subrange(pos as int, pos + i));
    }
    Ok((v, pos + n))
}

impl Function {
    /// A built-in function with `args` arguments, which are also all its locals.
    pub fn native(name: &str, args: u8) -> (r: Function)
        ensures
            r@ == (FunctionModel { name: name@, locals: args as u16, arguments: args, code: None }),
    {
        Function { name: name.to_string(), locals: args as u16, arguments: args, code: Code::Native }
    }

    pub fn fits(&self) -> (r: bool)
        ensures
            r == function_fits(self@),
    {
        match &self.code {
            Code::Bytecode(c) => crate::pool_entry::str_fits_exec(&self.name) && c.len() <= 0xFFFF,
            Code::Native => false,
        }
    }

    pub fn write(&self, out: &mut Vec<u8>)
        requires
            function_fits(self@),
        ensures
            final(out)@ == old(out)@ + function_bytes(self@),
    {
        write_str(out, self.name.as_str());
        write_u16(out, self.locals);
        write_u8(out, self.arguments);
        match &self.code {
            Code::Bytecode(c) => {
                write_u16(out, c.len() as u16);
                write_all(out, c.as_slice());
            },
            Code::Native => {},
        }
        assert(out@ =~= old(out)@ + function_bytes(self@));
    }

    /// Reads one function at `pos`.
    pub fn read(b: &[u8], pos: usize) -> (r: Result<(Function, usize), Error>)
        ensures
            r matches Ok((f, p)) ==> function_fits(f@) && p == pos + function_bytes(f@).len() && has_at(
                b@,
                pos as int,
                function_bytes(f@),
            ),
            r is Err ==> r == Err::<(Function, usize), Error>(Error::MalformedModule),
            forall|t: FunctionModel|
                function_fits(t) && #[trigger] has_at(b@, pos as int, function_bytes(t)) ==> (r matches Ok((f, p))
                    && f@ == t),
    {
        let blen = b.len();
        proof {
            assert forall|t: FunctionModel| function_fits(t) && #[trigger] has_at(b@, pos as int, function_bytes(t)) implies
                has_at(b@, pos as int, str_bytes(t.name)) && has_at(b@, pos + str_bytes(t.name).len(), function_tail(t)) by {
                lemma_has_at_concat(b@, pos as int, str_bytes(t.name), function_tail(t));
            }
        }
        let (name, at1) = match read_string(b, pos) {
            Ok(x) => x,
            Err(e) => {
                proof {
                    assert forall|t: FunctionModel| function_fits(t) implies !#[trigger] has_at(b@, pos as int, function_bytes(t)) by {
                        if has_at(b@, pos as int, function_bytes(t)) {
                            assert(has_at(b@, pos as int, str_bytes(t.name)));
                        }
                    }
                }
                return Err(e);
            },
        };
        proof {
            assert forall|t: FunctionModel| function_fits(t) && #[trigger] has_at(b@, pos as int, function_bytes(t)) implies
                t.name == name@ && has_at(b@, at1 as int, function_tail(t)) by {
                assert(has_at(b@, pos as int, str_bytes(t.name)));
            }
        }
        let (locals, at2) = match read_u16(b, at1) {
            Ok(x) => x,
            Err(e) => {
                proof {
                    assert forall|t: FunctionModel| function_fits(t) implies !#[trigger] has_at(b@, pos as int, function_bytes(t)) by {
                        if has_at(b@, pos as int, function_bytes(t)) {
                            lemma_has_at_concat(b@, at1 as int, u16_bytes(t.locals), function_tail2(t));
                        }
                    }
                }
                return Err(e);
            },
        };
        proof {
            assert forall|t: FunctionModel| function_fits(t) && #[trigger] has_at(b@, pos as int, function_bytes(t)) implies
                t.locals == locals && has_at(b@, at2 as int, function_tail2(t)) by {
                lemma_has_at_concat(b@, at1 as int, u16_bytes(t.locals), function_tail2(t));
            }
        }
        let (arguments, at3) = match read_u8(b, at2) {
            Ok(x) => x,
            Err(e) => {
                proof {
                    assert forall|t: FunctionModel| function_fits(t) implies !#[trigger] has_at(b@, pos as int, function_bytes(t)) by {
                        if has_at(b@, pos as int, function_bytes(t)) {
                            lemma_has_at_concat(b@, at2 as int, seq![t.arguments], function_tail3(t));
                        }
                    }
                }
                return Err(e);
            },
        };
        proof {
            assert forall|t: FunctionModel| function_fits(t) && #[trigger] has_at(b@, pos as int, function_bytes(t)) implies
                t.arguments == arguments && has_at(b@, at3 as int, function_tail3(t)) by {
                lemma_has_at_concat(b@, at2 as int, seq![t.arguments], function_tail3(t));
                assert(b@.subrange(at2 as int, at2 + 1)[0] == b@[at2 as int]);
            }
        }
        let (len, at4) = match read_u16(b, at3) {
            Ok(x) => x,
            Err(e) => {
                proof {
                    assert forall|t: FunctionModel| function_fits(t) implies !#[trigger] has_at(b@, pos as int, function_bytes(t)) by {
                        if has_at(b@, pos as int, function_bytes(t)) {
                            let c = t.code->Some_0;
                            lemma_has_at_concat(b@, at3 as int, u16_bytes(c.len() as u16), c);
                        }
                    }
                }
                return Err(e);
            },
        };
        proof {
            assert forall|t: FunctionModel| function_fits(t) && #[trigger] has_at(b@, pos as int, function_bytes(t)) implies
                t.code->Some_0.len() == len && has_at(b@, at4 as int, t.code->Some_0) by {
                let c = t.code->Some_0;
                lemma_has_at_concat(b@, at3 as int, u16_bytes(c.len() as u16), c);
            }
        }
        let (code, at5) = match read_bytes_exact(b, at4, len as usize) {
            Ok(x) => x,
            Err(e) => {
                return Err(e);
            },
        };
        let f = Function { name, locals, arguments, code: Code::Bytecode(code) };
        proof {
            let c = f@.code->Some_0;
            assert(has_at(b@, at4 as int, c));
            assert(b@.subrange(at3 as int, at3 + 2) =~= u16_bytes(len));
            lemma_has_at_concat(b@, at3 as int, u16_bytes(c.len() as u16), c);
            assert(b@.subrange(at2 as int, at2 + 1) =~= seq![arguments]);
            lemma_has_at_concat(b@, at2 as int, seq![arguments], function_tail3(f@));
            lemma_has_at_concat(b@, at1 as int, u16_bytes(locals), function_tail2(f@));
            lemma_has_at_concat(b@, pos as int, str_bytes(name@), function_tail(f@));
            assert(function_bytes(f@) == str_bytes(f@.name) + function_tail(f@));
            assert forall|t: FunctionModel| function_fits(t) && #[trigger] has_at(b@, pos as int, function_bytes(t)) implies f@ == t by {
                let tc = t.code->Some_0;
                assert(tc =~= c);
            }
        }
        Ok((f, at5))
    }
}

/// A function as written, after its name.
pub open spec fn function_tail(f: FunctionModel) -> Seq<u8> {
    u16_bytes(f.locals) + function_tail2(f)
}

/// A function as written, after its locals.
pub open spec fn function_tail2(f: FunctionModel) -> Seq<u8> {
    seq![f.arguments] + function_tail3(f)
}

/// A function as written, from its code length on.
pub open spec fn function_tail3(f: FunctionModel) -> Seq<u8> {
    let c = match f.code {
        Some(c) => c,
        None => Seq::empty(),
    };
    u16_bytes(c.len() as u16) + c
}

/// Writes functions: each one after the other.
pub fn write_functions(out: &mut Vec<u8>, items: &Vec<Function>)
    requires
        functions_fit(functions_view(items@)),
    ensures
        final(out)@ == old(out)@ + functions_bytes(functions_view(items@)),
{
    let ghost start = out@;
    let ghost f = |e: FunctionModel| function_bytes(e);
    let mut i: usize = 0;
    proof {
        assert(functions_view(items@.subrange(0, 0)) =~= Seq::<FunctionModel>::empty());
        assert(functions_bytes(Seq::<FunctionModel>::empty()) =~= Seq::<u8>::empty());
        assert(out@ =~= start + functions_bytes(functions_view(items@.subrange(0, 0))));
    }
    while i < items.len()
        invariant
            i <= items@.len(),
            functions_fit(functions_view(items@)),
            f == (|e: FunctionModel| function_bytes(e)),
            out@ == start + functions_bytes(functions_view(items@.subrange(0, i as int))),
        decreases items@.len() - i,
    {
        proof {
            assert(function_fits(functions_view(items@)[i as int]));
        }
        items[i].write(out);
        proof {
            assert(functions_view(items@.subrange(0, i + 1)) =~= functions_view(items@.subrange(0, i as int)).push(items@[i as int]@));
            lemma_concat_push(functions_view(items@.subrange(0, i as int)), items@[i as int]@, f);
        }
        i = i + 1;
        assert(out@ =~= start + functions_bytes(functions_view(items@.subrange(0, i as int))));
    }
    assert(items@.subrange(0, i as int) =~= items@);
}

/// Reads `count` of functions from `pos` on.
pub fn read_functions(b: &[u8], pos: usize, count: usize) -> (r: Result<(Vec<Function>, usize), Error>)
    ensures
        r matches Ok((v, p)) ==> v@.len() == count && functions_fit(functions_view(v@)) && p == pos
            + functions_bytes(functions_view(v@)).len() && has_at(b@, pos as int, functions_bytes(functions_view(v@))),
        r is Err ==> r == Err::<(Vec<Function>, usize), Error>(Error::MalformedModule),
        forall|t: Seq<FunctionModel>|
            t.len() == count && functions_fit(t) && #[trigger] has_at(b@, pos as int, functions_bytes(t)) ==> (r matches Ok((v, p))
                && functions_view(v@) == t),
{
    let mut v: Vec<Function> = Vec::new();
    let mut p = pos;
    let mut i: usize = 0;
    let ghost f = |e: FunctionModel| function_bytes(e);
    if pos > b.len() {
        return Err(Error::MalformedModule);
    }
    proof {
        assert(functions_view(v@) =~= Seq::<FunctionModel>::empty());
        assert(functions_bytes(Seq::<FunctionModel>::empty()) =~= Seq::<u8>::empty());
        assert(b@.subrange(pos as int, pos as int) =~= Seq::<u8>::empty());
    }
    while i < count
        invariant
            i <= count,
            v@.len() == i,
            functions_fit(functions_view(v@)),
            p == pos + functions_bytes(functions_view(v@)).len(),
            has_at(b@, pos as int, functions_bytes(functions_view(v@))),
            f == (|e: FunctionModel| function_bytes(e)),
            forall|t: Seq<FunctionModel>|
                t.len() == count && functions_fit(t) && #[trigger] has_at(b@, pos as int, functions_bytes(t)) ==> functions_view(v@)
                    == t.subrange(0, i as int),
        decreases count - i,
    {
        proof {
            assert forall|t: Seq<FunctionModel>|
                t.len() == count && functions_fit(t) && #[trigger] has_at(b@, pos as int, functions_bytes(t)) implies has_at(
                    b@,
                    p as int,
                    function_bytes(t[i as int]),
                ) && function_fits(t[i as int]) by {
                lemma_concat_split(t, i as int, f);
                let tail = t.subrange(i as int, t.len() as int);
                lemma_concat_first(tail, f);
                assert(tail.subrange(1, tail.len() as int) =~= t.subrange(i + 1, t.len() as int));
                lemma_has_at_concat(b@, pos as int, functions_bytes(t.subrange(0, i as int)), functions_bytes(tail));
                lemma_has_at_concat(b@, p as int, function_bytes(t[i as int]), functions_bytes(t.subrange(i + 1, t.len() as int)));
            }
        }
        let res = Function::read(b, p);
        match res {
            Ok((e, q)) => {
                proof {
                    let old_view = functions_view(v@);
                    lemma_concat_push(old_view, e@, f);
                    lemma_has_at_concat(b@, pos as int, functions_bytes(old_view), function_bytes(e@));
                }
                let ghost v0 = v@;
                v.push(e);
                p = q;
                i = i + 1;
                proof {
                    assert(functions_view(v@) =~= functions_view(v0).push(v@[i - 1]@));
                    assert forall|t: Seq<FunctionModel>|
                        t.len() == count && functions_fit(t) && #[trigger] has_at(b@, pos as int, functions_bytes(t)) implies functions_view(v@)
                            == t.subrange(0, i as int) by {
                        assert(functions_view(v@) =~= t.subrange(0, i as int));
                    }
                }
            },
            Err(err) => {
                proof {
                    assert forall|t: Seq<FunctionModel>|
                        t.len() == count && functions_fit(t) implies !#[trigger] has_at(b@, pos as int, functions_bytes(t)) by {
                        if has_at(b@, pos as int, functions_bytes(t)) {
                            assert(has_at(b@, p as int, function_bytes(t[i as int])));
                        }
                    }
                }
                return Err(err);
            },
        }
    }
    proof {
        assert forall|t: Seq<FunctionModel>|
            t.len() == count && functions_fit(t) && #[trigger] has_at(b@, pos as int, functions_bytes(t)) implies functions_view(v@) == t by {
            assert(t.subrange(0, i as int) =~= t);
        }
    }
    Ok((v, p))
}


/// The function `i` of `fs` is the first one named `name`.
pub open spec fn first_named(fs: Seq<Function>, name: Seq<char>, i: int) -> bool {
    &&& 0 <= i < fs.len()
    &&& fs[i].name@ == name
    &&& forall|j: int| 0 <= j < i ==> fs[j].name@ != name
}

/// The index of the first function of `fs` named `name`.
pub fn find_function(fs: &Vec<Function>, name: &String) -> (r: Option<usize>)
    ensures
        r matches Some(i) ==> first_named(fs@, name@, i as int),
        r is None ==> forall|j: int| 0 <= j < fs@.len() ==> fs@[j].name@ != name@,
{
    let mut i: usize = 0;
    while i < fs.len()
        invariant
            i <= fs@.len(),
            forall|j: int| 0 <= j < i ==> fs@[j].name@ != name@,
        decreases fs@.len() - i,
    {
        if fs[i].name == *name {
            return Some(i);
        }
        i = i + 1;
    }
    None
}

/// Builds a function step by step.
pub struct FunctionBuilder {
    name: String,
    locals: u16,
    arguments: u8,
    code: Option<Code>,
}

impl FunctionBuilder {
    pub closed spec fn name_spec(&self) -> Seq<char> {
        self.name@
    }

    pub closed spec fn locals_spec(&self) -> u16 {
        self.locals
    }

    pub closed spec fn arguments_spec(&self) -> u8 {
        self.arguments
    }

    /// The code so far: `None` where none was given, `Some(None)` for a built-in.
    pub closed spec fn code_spec(&self) -> Option<Option<Seq<u8>>> {
        match self.code {
            None => None,
            Some(Code::Native) => Some(None),
            Some(Code::Bytecode(b)) => Some(Some(b@)),
        }
    }

    /// An empty name, no locals, no arguments and no code.
    pub fn new() -> (r: FunctionBuilder)
        ensures
            r.name_spec() == Seq::<char>::empty(),
            r.locals_spec() == 0,
            r.arguments_spec() == 0,
            r.code_spec() is None,
    {
        FunctionBuilder { name: String::new(), locals: 0, arguments: 0, code: None }
    }

    pub fn with_name(self, name: &str) -> (r: FunctionBuilder)
        ensures
            r.name_spec() == name@,
            r.locals_spec() == self.locals_spec(),
            r.arguments_spec() == self.arguments_spec(),
            r.code_spec() == self.code_spec(),
    {
        FunctionBuilder { name: name.to_string(), ..self }
    }

    pub fn with_locals(self, locals: u16) -> (r: FunctionBuilder)
        ensures
            r.name_spec() == self.name_spec(),
            r.locals_spec() == locals,
            r.arguments_spec() == self.arguments_spec(),
            r.code_spec() == self.code_spec(),
    {
        FunctionBuilder { locals, ..self }
    }

    pub fn with_arguments(self, arguments: u8) -> (r: FunctionBuilder)
        ensures
            r.name_spec() == self.name_spec(),
            r.locals_spec() == self.locals_spec(),
            r.arguments_spec() == arguments,
            r.code_spec() == self.code_spec(),
    {
        FunctionBuilder { arguments, ..self }
    }

    pub fn with_bytecode(self, bytecode: &[u8]) -> (r: FunctionBuilder)
        ensures
            r.name_spec() == self.name_spec(),
            r.locals_spec() == self.locals_spec(),
            r.arguments_spec() == self.arguments_spec(),
            r.code_spec() == Some(Some(bytecode@)),
    {
        let mut v: Vec<u8> = Vec::new();
        crate::write_bytes::write_all(&mut v, bytecode);
        assert(v@ =~= bytecode@);
        FunctionBuilder { code: Some(Code::Bytecode(v)), ..self }
    }

    /// Makes the function a built-in.
    pub fn with_native(self) -> (r: FunctionBuilder)
        ensures
            r.name_spec() == self.name_spec(),
            r.locals_spec() == self.locals_spec(),
            r.arguments_spec() == self.arguments_spec(),
            r.code_spec() == Some(None::<Seq<u8>>),
    {
        FunctionBuilder { code: Some(Code::Native), ..self }
    }

    pub fn build(self) -> (r: Function)
        requires
            self.code_spec() is Some,
        ensures
            r@ == (FunctionModel {
                name: self.name_spec(),
                locals: self.locals_spec(),
                arguments: self.arguments_spec(),
                code: self.code_spec()->Some_0,
            }),
    {
        match self.code {
            Some(code) => Function { name: self.name, locals: self.locals, arguments: self.arguments, code },
            None => Function { name: self.name, locals: self.locals, arguments: self.arguments, code: Code::Native },
        }
    }
}
} // verus!
