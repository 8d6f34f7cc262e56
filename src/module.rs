use vstd::prelude::*;

pub mod file;
pub mod std_out;
pub mod tcp;

use crate::class::{class_bytes, class_fits, entries_fit_exec, functions_fit_exec, Class, ClassModel};
use crate::error::Error;
use crate::function::{
    find_function, first_named,
    functions_bytes, functions_fit, functions_view, read_functions, write_functions, Function,
    FunctionModel,
};
use crate::pool_entry::{
    entries_bytes, entries_fit, entries_view, read_entries, str_fits_exec, write_entries,
    EntryModel, PoolEntry,
};
use crate::read_bytes::{read_string, read_u16, read_u32};
use crate::write_bytes::{
    concat_bytes, has_at, lemma_concat_first, lemma_concat_push, lemma_concat_split,
    lemma_has_at_concat, str_bytes, str_fits, u16_bytes, u32_bytes, write_str, write_u16, write_u32,
};

verus! {

/// The first four bytes of every module file: "uvas".
pub const MODULE_MAGIC: u32 = 0x7576_6173;

/// A module: its name, its constant pool, its functions and its classes.
#[derive(Clone, Debug)]
pub struct Module {
    pub name: String,
    pub constants: Vec<PoolEntry>,
    pub functions: Vec<Function>,
    pub classes: Vec<Class>,
}

pub struct ModuleModel {
    pub name: Seq<char>,
    pub constants: Seq<EntryModel>,
    pub functions: Seq<FunctionModel>,
    pub classes: Seq<ClassModel>,
}

pub open spec fn classes_view(v: Seq<Class>) -> Seq<ClassModel> {
    v.map_values(|c: Class| c@)
}

pub open spec fn classes_fit(s: Seq<ClassModel>) -> bool {
    forall|i: int| 0 <= i < s.len() ==> class_fits(#[trigger] s[i])
}

pub open spec fn classes_bytes(s: Seq<ClassModel>) -> Seq<u8> {
    concat_bytes(s, |c: ClassModel| class_bytes(c))
}

impl View for Module {
    type V = ModuleModel;

    open spec fn view(&self) -> ModuleModel {
        ModuleModel {
            name: self.name@,
            constants: entries_view(self.constants@),
            functions: functions_view(self.functions@),
            classes: classes_view(self.classes@),
        }
    }
}

/// The module can be written: each count and text fits its prefix, and every function has bytecode.
pub open spec fn module_fits(m: ModuleModel) -> bool {
    &&& str_fits(m.name)
    &&& m.constants.len() <= 0xFFFF
    &&& entries_fit(m.constants)
    &&& m.functions.len() <= 0xFFFF
    &&& functions_fit(m.functions)
    &&& m.classes.len() <= 0xFFFF
    &&& classes_fit(m.classes)
}

/// A module file: magic, name, pool, functions, classes, each list after its count.
pub open spec fn module_bytes(t: ModuleModel) -> Seq<u8> {
    u32_bytes(MODULE_MAGIC) + module_tail0(t)
}

pub open spec fn module_tail0(t: ModuleModel) -> Seq<u8> {
    str_bytes(t.name) + module_tail1(t)
}

pub open spec fn module_tail1(t: ModuleModel) -> Seq<u8> {
    u16_bytes(t.constants.len() as u16) + module_tail2(t)
}

pub open spec fn module_tail2(t: ModuleModel) -> Seq<u8> {
    entries_bytes(t.constants) + module_tail3(t)
}

pub open spec fn module_tail3(t: ModuleModel) -> Seq<u8> {
    u16_bytes(t.functions.len() as u16) + module_tail4(t)
}

pub open spec fn module_tail4(t: ModuleModel) -> Seq<u8> {
    functions_bytes(t.functions) + module_tail5(t)
}

pub open spec fn module_tail5(t: ModuleModel) -> Seq<u8> {
    u16_bytes(t.classes.len() as u16) + module_tail6(t)
}

pub open spec fn module_tail6(t: ModuleModel) -> Seq<u8> {
    classes_bytes(t.classes)
}


/// Writes classes: each one after the other.
pub fn write_classes(out: &mut Vec<u8>, items: &Vec<Class>)
    requires
        classes_fit(classes_view(items@)),
    ensures
        final(out)@ == old(out)@ + classes_bytes(classes_view(items@)),
{
    let ghost start = out@;
    let ghost f = |e: ClassModel| class_bytes(e);
    let mut i: usize = 0;
    proof {
        assert(classes_view(items@.subrange(0, 0)) =~= Seq::<ClassModel>::empty());
        assert(classes_bytes(Seq::<ClassModel>::empty()) =~= Seq::<u8>::empty());
        assert(out@ =~= start + classes_bytes(classes_view(items@.subrange(0, 0))));
    }
    while i < items.len()
        invariant
            i <= items@.len(),
            classes_fit(classes_view(items@)),
            f == (|e: ClassModel| class_bytes(e)),
            out@ == start + classes_bytes(classes_view(items@.subrange(0, i as int))),
        decreases items@.len() - i,
    {
        proof {
            assert(class_fits(classes_view(items@)[i as int]));
        }
        items[i].write(out);
        proof {
            assert(classes_view(items@.subrange(0, i + 1)) =~= classes_view(items@.subrange(0, i as int)).push(items@[i as int]@));
            lemma_concat_push(classes_view(items@.subrange(0, i as int)), items@[i as int]@, f);
        }
        i = i + 1;
        assert(out@ =~= start + classes_bytes(classes_view(items@.subrange(0, i as int))));
    }
    assert(items@.subrange(0, i as int) =~= items@);
}

/// Reads `count` of classes from `pos` on.
#[verifier::rlimit(100)]
#[verifier::spinoff_prover]
pub fn read_classes(b: &[u8], pos: usize, count: usize) -> (r: Result<(Vec<Class>, usize), Error>)
    ensures
        r matches Ok((v, p)) ==> v@.len() == count && classes_fit(classes_view(v@)) && p == pos
            + classes_bytes(classes_view(v@)).len() && has_at(b@, pos as int, classes_bytes(classes_view(v@))),
        r is Err ==> r == Err::<(Vec<Class>, usize), Error>(Error::MalformedModule),
        forall|t: Seq<ClassModel>|
            t.len() == count && classes_fit(t) && #[trigger] has_at(b@, pos as int, classes_bytes(t)) ==> (r matches Ok((v, p))
                && classes_view(v@) == t),
{
    let mut v: Vec<Class> = Vec::new();
    let mut p = pos;
    let mut i: usize = 0;
    let ghost f = |e: ClassModel| class_bytes(e);
    if pos > b.len() {
        return Err(Error::MalformedModule);
    }
    proof {
        assert(classes_view(v@) =~= Seq::<ClassModel>::empty());
        assert(classes_bytes(Seq::<ClassModel>::empty()) =~= Seq::<u8>::empty());
        assert(b@.subrange(pos as int, pos as int) =~= Seq::<u8>::empty());
    }
    while i < count
        invariant
            i <= count,
            v@.len() == i,
            classes_fit(classes_view(v@)),
            p == pos + classes_bytes(classes_view(v@)).len(),
            has_at(b@, pos as int, classes_bytes(classes_view(v@))),
            f == (|e: ClassModel| class_bytes(e)),
            forall|t: Seq<ClassModel>|
                t.len() == count && classes_fit(t) && #[trigger] has_at(b@, pos as int, classes_bytes(t)) ==> classes_view(v@)
                    == t.subrange(0, i as int),
        decreases count - i,
    {
        proof {
            assert forall|t: Seq<ClassModel>|
                t.len() == count && classes_fit(t) && #[trigger] has_at(b@, pos as int, classes_bytes(t)) implies has_at(
                    b@,
                    p as int,
                    class_bytes(t[i as int]),
                ) && class_fits(t[i as int]) by {
                lemma_concat_split(t, i as int, f);
                let tail = t.subrange(i as int, t.len() as int);
                lemma_concat_first(tail, f);
                assert(tail.subrange(1, tail.len() as int) =~= t.subrange(i + 1, t.len() as int));
                lemma_has_at_concat(b@, pos as int, classes_bytes(t.subrange(0, i as int)), classes_bytes(tail));
                lemma_has_at_concat(b@, p as int, class_bytes(t[i as int]), classes_bytes(t.subrange(i + 1, t.len() as int)));
            }
        }
        let res = Class::read(b, p);
        match res {
            Ok((e, q)) => {
                proof {
                    let old_view = classes_view(v@);
                    lemma_concat_push(old_view, e@, f);
                    lemma_has_at_concat(b@, pos as int, classes_bytes(old_view), class_bytes(e@));
                }
                let ghost v0 = v@;
                v.push(e);
                p = q;
                i = i + 1;
                proof {
                    assert(classes_view(v@) =~= classes_view(v0).push(v@[i - 1]@));
                    assert forall|t: Seq<ClassModel>|
                        t.len() == count && classes_fit(t) && #[trigger] has_at(b@, pos as int, classes_bytes(t)) implies classes_view(v@)
                            == t.subrange(0, i as int) by {
                        assert(classes_view(v@) =~= t.subrange(0, i as int));
                    }
                }
            },
            Err(err) => {
                proof {
                    assert forall|t: Seq<ClassModel>|
                        t.len() == count && classes_fit(t) implies !#[trigger] has_at(b@, pos as int, classes_bytes(t)) by {
                        if has_at(b@, pos as int, classes_bytes(t)) {
                            assert(has_at(b@, p as int, class_bytes(t[i as int])));
                        }
                    }
                }
                return Err(err);
            },
        }
    }
    proof {
        assert forall|t: Seq<ClassModel>|
            t.len() == count && classes_fit(t) && #[trigger] has_at(b@, pos as int, classes_bytes(t)) implies classes_view(v@) == t by {
            assert(t.subrange(0, i as int) =~= t);
        }
    }
    Ok((v, p))
}

/// Whether every class can be written.
fn classes_fit_exec(v: &Vec<Class>) -> (r: bool)
    ensures
        r == classes_fit(classes_view(v@)),
{
    let mut i: usize = 0;
    while i < v.len()
        invariant
            i <= v@.len(),
            forall|j: int| 0 <= j < i ==> class_fits(#[trigger] classes_view(v@)[j]),
        decreases v@.len() - i,
    {
        if !v[i].fits() {
            assert(classes_view(v@)[i as int] == v@[i as int]@);
            return false;
        }
        i = i + 1;
    }
    true
}

impl Module {
    pub fn fits(&self) -> (r: bool)
        ensures
            r == module_fits(self@),
    {
        str_fits_exec(&self.name) && self.constants.len() <= 0xFFFF && entries_fit_exec(&self.constants)
            && self.functions.len() <= 0xFFFF && functions_fit_exec(&self.functions)
            && self.classes.len() <= 0xFFFF && classes_fit_exec(&self.classes)
    }

    /// The module file; fails where a count or a text does not fit its prefix or a function is
    /// a built-in.
    pub fn write(&self) -> (r: Result<Vec<u8>, Error>)
        ensures
            r is Ok <==> module_fits(self@),
            r matches Ok(b) ==> b@ == module_bytes(self@),
            r is Err ==> r == Err::<Vec<u8>, Error>(Error::MalformedModule),
    {
        if !self.fits() {
            return Err(Error::MalformedModule);
        }
        let mut out: Vec<u8> = Vec::new();
        write_u32(&mut out, MODULE_MAGIC);
        write_str(&mut out, self.name.as_str());
        write_u16(&mut out, self.constants.len() as u16);
        write_entries(&mut out, &self.constants);
        write_u16(&mut out, self.functions.len() as u16);
        write_functions(&mut out, &self.functions);
        write_u16(&mut out, self.classes.len() as u16);
        write_classes(&mut out, &self.classes);
        assert(out@ =~= module_bytes(self@));
        Ok(out)
    }

    /// Reads a module file. What a module's file holds reads back as that module, whatever
    /// follows it.
    pub fn read(b: &[u8]) -> (r: Result<Module, Error>)
        ensures
            r matches Ok(m) ==> module_fits(m@) && has_at(b@, 0, module_bytes(m@)),
            r is Err ==> r == Err::<Module, Error>(Error::MalformedModule),
            forall|t: ModuleModel|
                module_fits(t) && #[trigger] has_at(b@, 0, module_bytes(t)) ==> (r matches Ok(m) && m@ == t),
    {
        match Module::read_at(b, 0) {
            Ok((m, _)) => Ok(m),
            Err(e) => Err(e),
        }
    }

    #[verifier::rlimit(100)]
    #[verifier::spinoff_prover]
    fn read_at(b: &[u8], pos: usize) -> (r: Result<(Module, usize), Error>)
        ensures
            r matches Ok((m, p)) ==> module_fits(m@) && p == pos + module_bytes(m@).len() && has_at(
                b@,
                pos as int,
                module_bytes(m@),
            ),
            r is Err ==> r == Err::<(Module, usize), Error>(Error::MalformedModule),
            forall|t: ModuleModel|
                module_fits(t) && #[trigger] has_at(b@, pos as int, module_bytes(t)) ==> (r matches Ok((m, p))
                    && m@ == t),
    {
        let blen = b.len();
        proof {
            assert forall|t: ModuleModel| module_fits(t) && #[trigger] has_at(b@, pos as int, module_bytes(t)) implies has_at(b@, pos as int, u32_bytes(MODULE_MAGIC) + module_tail0(t)) by {}
        }
        let (magic, at1) = match read_u32(b, pos) {
            Ok(x) => x,
            Err(e) => {
                proof {
                    assert forall|t: ModuleModel| module_fits(t) implies !#[trigger] has_at(b@, pos as int, module_bytes(t)) by {
                        if has_at(b@, pos as int, module_bytes(t)) {
                            lemma_has_at_concat(b@, pos as int, u32_bytes(MODULE_MAGIC), module_tail0(t));
                            
                        }
                    }
                }
                return Err(e);
            },
        };
        proof {
            assert forall|t: ModuleModel| module_fits(t) && #[trigger] has_at(b@, pos as int, module_bytes(t)) implies magic == MODULE_MAGIC && has_at(b@, at1 as int, module_tail0(t)) by {
                lemma_has_at_concat(b@, pos as int, u32_bytes(MODULE_MAGIC), module_tail0(t));
                
            }
        }
        if magic != MODULE_MAGIC {
            proof {
                assert forall|t: ModuleModel| module_fits(t) implies !#[trigger] has_at(b@, pos as int, module_bytes(t)) by {
                    if has_at(b@, pos as int, module_bytes(t)) {
                        assert(u32_bytes(MODULE_MAGIC) + module_tail0(t) == module_bytes(t));
                        lemma_has_at_concat(b@, pos as int, u32_bytes(MODULE_MAGIC), module_tail0(t));
                    }
                }
            }
            return Err(Error::MalformedModule);
        }
        let (name, at2) = match read_string(b, at1) {
            Ok(x) => x,
            Err(e) => {
                proof {
                    assert forall|t: ModuleModel| module_fits(t) implies !#[trigger] has_at(b@, pos as int, module_bytes(t)) by {
                        if has_at(b@, pos as int, module_bytes(t)) {
                            lemma_has_at_concat(b@, at1 as int, str_bytes(t.name), module_tail1(t));
                            
                        }
                    }
                }
                return Err(e);
            },
        };
        proof {
            assert forall|t: ModuleModel| module_fits(t) && #[trigger] has_at(b@, pos as int, module_bytes(t)) implies t.name == name@ && has_at(b@, at2 as int, module_tail1(t)) by {
                lemma_has_at_concat(b@, at1 as int, str_bytes(t.name), module_tail1(t));
                
            }
        }
        let (npool, at3) = match read_u16(b, at2) {
            Ok(x) => x,
            Err(e) => {
                proof {
                    assert forall|t: ModuleModel| module_fits(t) implies !#[trigger] has_at(b@, pos as int, module_bytes(t)) by {
                        if has_at(b@, pos as int, module_bytes(t)) {
                            lemma_has_at_concat(b@, at2 as int, u16_bytes(t.constants.len() as u16), module_tail2(t));
                            
                        }
                    }
                }
                return Err(e);
            },
        };
        proof {
            assert forall|t: ModuleModel| module_fits(t) && #[trigger] has_at(b@, pos as int, module_bytes(t)) implies t.constants.len() == npool as int && has_at(b@, at3 as int, module_tail2(t)) by {
                lemma_has_at_concat(b@, at2 as int, u16_bytes(t.constants.len() as u16), module_tail2(t));
                
            }
        }
        let (constants, at4) = match read_entries(b, at3, npool as usize) {
            Ok(x) => x,
            Err(e) => {
                proof {
                    assert forall|t: ModuleModel| module_fits(t) implies !#[trigger] has_at(b@, pos as int, module_bytes(t)) by {
                        if has_at(b@, pos as int, module_bytes(t)) {
                            lemma_has_at_concat(b@, at3 as int, entries_bytes(t.constants), module_tail3(t));
                            
                        }
                    }
                }
                return Err(e);
            },
        };
        proof {
            assert forall|t: ModuleModel| module_fits(t) && #[trigger] has_at(b@, pos as int, module_bytes(t)) implies t.constants == entries_view(constants@) && has_at(b@, at4 as int, module_tail3(t)) by {
                lemma_has_at_concat(b@, at3 as int, entries_bytes(t.constants), module_tail3(t));
                
            }
        }
        let (nfunctions, at5) = match read_u16(b, at4) {
            Ok(x) => x,
            Err(e) => {
                proof {
                    assert forall|t: ModuleModel| module_fits(t) implies !#[trigger] has_at(b@, pos as int, module_bytes(t)) by {
                        if has_at(b@, pos as int, module_bytes(t)) {
                            lemma_has_at_concat(b@, at4 as int, u16_bytes(t.functions.len() as u16), module_tail4(t));
                            
                        }
                    }
                }
                return Err(e);
            },
        };
        proof {
            assert forall|t: ModuleModel| module_fits(t) && #[trigger] has_at(b@, pos as int, module_bytes(t)) implies t.functions.len() == nfunctions as int && has_at(b@, at5 as int, module_tail4(t)) by {
                lemma_has_at_concat(b@, at4 as int, u16_bytes(t.functions.len() as u16), module_tail4(t));
                
            }
        }
        let (functions, at6) = match read_functions(b, at5, nfunctions as usize) {
            Ok(x) => x,
            Err(e) => {
                proof {
                    assert forall|t: ModuleModel| module_fits(t) implies !#[trigger] has_at(b@, pos as int, module_bytes(t)) by {
                        if has_at(b@, pos as int, module_bytes(t)) {
                            lemma_has_at_concat(b@, at5 as int, functions_bytes(t.functions), module_tail5(t));
                            
                        }
                    }
                }
                return Err(e);
            },
        };
        proof {
            assert forall|t: ModuleModel| module_fits(t) && #[trigger] has_at(b@, pos as int, module_bytes(t)) implies t.functions == functions_view(functions@) && has_at(b@, at6 as int, module_tail5(t)) by {
                lemma_has_at_concat(b@, at5 as int, functions_bytes(t.functions), module_tail5(t));
                
            }
        }
        let (nclasses, at7) = match read_u16(b, at6) {
            Ok(x) => x,
            Err(e) => {
                proof {
                    assert forall|t: ModuleModel| module_fits(t) implies !#[trigger] has_at(b@, pos as int, module_bytes(t)) by {
                        if has_at(b@, pos as int, module_bytes(t)) {
                            lemma_has_at_concat(b@, at6 as int, u16_bytes(t.classes.len() as u16), module_tail6(t));
                            
                        }
                    }
                }
                return Err(e);
            },
        };
        proof {
            assert forall|t: ModuleModel| module_fits(t) && #[trigger] has_at(b@, pos as int, module_bytes(t)) implies t.classes.len() == nclasses as int && has_at(b@, at7 as int, module_tail6(t)) by {
                lemma_has_at_concat(b@, at6 as int, u16_bytes(t.classes.len() as u16), module_tail6(t));
                
            }
        }
        let (classes, at8) = match read_classes(b, at7, nclasses as usize) {
            Ok(x) => x,
            Err(e) => {
                proof {
                    assert forall|t: ModuleModel| module_fits(t) implies !#[trigger] has_at(b@, pos as int, module_bytes(t)) by {
                        if has_at(b@, pos as int, module_bytes(t)) {
                            assert(classes_bytes(t.classes) + Seq::<u8>::empty() =~= classes_bytes(t.classes));
                            lemma_has_at_concat(b@, at7 as int, classes_bytes(t.classes), Seq::<u8>::empty());
                            
                        }
                    }
                }
                return Err(e);
            },
        };
        proof {
            assert forall|t: ModuleModel| module_fits(t) && #[trigger] has_at(b@, pos as int, module_bytes(t)) implies t.classes == classes_view(classes@) && true by {
                assert(classes_bytes(t.classes) + Seq::<u8>::empty() =~= classes_bytes(t.classes));
                            lemma_has_at_concat(b@, at7 as int, classes_bytes(t.classes), Seq::<u8>::empty());
                
            }
        }
        let r = Module { name, constants, functions, classes };
        proof {
            
            assert(classes_bytes(r@.classes) == module_tail6(r@));
            
            lemma_has_at_concat(b@, at6 as int, u16_bytes(r@.classes.len() as u16), module_tail6(r@));
            assert(u16_bytes(r@.classes.len() as u16) + module_tail6(r@) == module_tail5(r@));
            
            lemma_has_at_concat(b@, at5 as int, functions_bytes(r@.functions), module_tail5(r@));
            assert(functions_bytes(r@.functions) + module_tail5(r@) == module_tail4(r@));
            
            lemma_has_at_concat(b@, at4 as int, u16_bytes(r@.functions.len() as u16), module_tail4(r@));
            assert(u16_bytes(r@.functions.len() as u16) + module_tail4(r@) == module_tail3(r@));
            
            lemma_has_at_concat(b@, at3 as int, entries_bytes(r@.constants), module_tail3(r@));
            assert(entries_bytes(r@.constants) + module_tail3(r@) == module_tail2(r@));
            
            lemma_has_at_concat(b@, at2 as int, u16_bytes(r@.constants.len() as u16), module_tail2(r@));
            assert(u16_bytes(r@.constants.len() as u16) + module_tail2(r@) == module_tail1(r@));
            
            lemma_has_at_concat(b@, at1 as int, str_bytes(r@.name), module_tail1(r@));
            assert(str_bytes(r@.name) + module_tail1(r@) == module_tail0(r@));
            assert(has_at(b@, pos as int, u32_bytes(MODULE_MAGIC)));
            lemma_has_at_concat(b@, pos as int, u32_bytes(MODULE_MAGIC), module_tail0(r@));
            assert(module_bytes(r@) == u32_bytes(MODULE_MAGIC) + module_tail0(r@));
            assert forall|t: ModuleModel| module_fits(t) && #[trigger] has_at(b@, pos as int, module_bytes(t)) implies r@ == t by {  }
        }
        Ok((r, at8))
    }
}


/// A module's file holds the module from its first byte on. With the contracts of
/// `Module::write` and `Module::read`, reading what `write` gave yields the module again.
pub proof fn lemma_write_then_read(m: ModuleModel)
    ensures
        has_at(module_bytes(m), 0, module_bytes(m)),
{
    assert(module_bytes(m).subrange(0, module_bytes(m).len() as int) =~= module_bytes(m));
}

impl Module {
    /// The first function named `name`.
    pub fn fetch_function_with_name(&self, name: &String) -> (r: Result<&Function, Error>)
        ensures
            r matches Ok(f) ==> exists|i: int| first_named(self.functions@, name@, i) && self.functions@[i] == *f,
            r is Err <==> forall|j: int| 0 <= j < self.functions@.len() ==> self.functions@[j].name@ != name@,
            r matches Err(e) ==> e matches Error::FunctionNotFound(n) && n@ == name@,
    {
        match find_function(&self.functions, name) {
            Some(i) => {
                assert(first_named(self.functions@, name@, i as int));
                Ok(&self.functions[i])
            },
            None => Err(Error::FunctionNotFound(name.clone())),
        }
    }
}

/// Builds a module step by step.
pub struct ModuleBuilder {
    name: String,
    constants: Vec<PoolEntry>,
    functions: Vec<Function>,
}

impl ModuleBuilder {
    /// The module that `build` would give.
    pub closed spec fn model(&self) -> ModuleModel {
        ModuleModel {
            name: self.name@,
            constants: entries_view(self.constants@),
            functions: functions_view(self.functions@),
            classes: Seq::empty(),
        }
    }

    pub fn new() -> (r: ModuleBuilder)
        ensures
            r.model() == (ModuleModel {
                name: Seq::empty(),
                constants: Seq::empty(),
                functions: Seq::empty(),
                classes: Seq::empty(),
            }),
    {
        let r = ModuleBuilder { name: String::new(), constants: Vec::new(), functions: Vec::new() };
        assert(r.model().constants =~= Seq::<EntryModel>::empty());
        assert(r.model().functions =~= Seq::<FunctionModel>::empty());
        r
    }

    /// Names the module, and adds its own name to its pool.
    pub fn with_name(self, name: &str) -> (r: ModuleBuilder)
        ensures
            r.model() == (ModuleModel {
                name: name@,
                constants: self.model().constants.push(EntryModel::Module(name@)),
                ..self.model()
            }),
    {
        let mut constants = self.constants;
        let ghost c0 = constants@;
        constants.push(PoolEntry::Module(name.to_string()));
        let r = ModuleBuilder { name: name.to_string(), constants, functions: self.functions };
        assert(entries_view(r.constants@) =~= entries_view(c0).push(EntryModel::Module(name@)));
        r
    }

    pub fn with_constant(self, entry: PoolEntry) -> (r: ModuleBuilder)
        ensures
            r.model() == (ModuleModel { constants: self.model().constants.push(entry@), ..self.model() }),
    {
        let mut constants = self.constants;
        let ghost c0 = constants@;
        constants.push(entry);
        let r = ModuleBuilder { name: self.name, constants, functions: self.functions };
        assert(entries_view(r.constants@) =~= entries_view(c0).push(entry@));
        r
    }

    pub fn with_function(self, function: Function) -> (r: ModuleBuilder)
        ensures
            r.model() == (ModuleModel { functions: self.model().functions.push(function@), ..self.model() }),
    {
        let mut functions = self.functions;
        let ghost f0 = functions@;
        functions.push(function);
        let r = ModuleBuilder { name: self.name, constants: self.constants, functions };
        assert(functions_view(r.functions@) =~= functions_view(f0).push(function@));
        r
    }

    /// The module, with no classes.
    pub fn build(self) -> (r: Module)
        ensures
            r@ == self.model(),
    {
        let r = Module { name: self.name, constants: self.constants, functions: self.functions, classes: Vec::new() };
        assert(classes_view(r.classes@) =~= Seq::<ClassModel>::empty());
        r
    }
}
} // verus!
