use vstd::prelude::*;

use crate::error::Error;
use crate::function::{
    find_function, first_named,
    function_fits, functions_bytes, functions_fit, functions_view, read_functions, write_functions,
    Function, FunctionModel,
};
use crate::pool_entry::{
    entries_bytes, entries_fit, entries_view, read_entries, str_fits_exec, write_entries,
    EntryModel, PoolEntry,
};
use crate::read_bytes::{read_string, read_u16, read_u8};
use crate::write_bytes::{
    concat_bytes, has_at, lemma_concat_first, lemma_concat_push, lemma_concat_split,
    lemma_has_at_concat, str_bytes, str_fits, u16_bytes, write_str, write_u16, write_u8,
};

verus! {

/// Visibility and position of a field.
#[derive(Clone, Copy, Debug, PartialEq, Eq, Structural)]
pub struct Field {
    pub vis: u8,
    pub offset: u8,
}

pub const FIELD_PRIVATE: u8 = 0;

pub const FIELD_PUBLIC: u8 = 1;

/// A class: its name, its own constant pool, its fields in the order of their offsets,
/// and its methods. The method `new` is the constructor.
#[derive(Clone, Debug)]
pub struct Class {
    pub name: String,
    pub constants: Vec<PoolEntry>,
    pub fields: Vec<String>,
    pub methods: Vec<Function>,
}

pub struct ClassModel {
    pub name: Seq<char>,
    pub constants: Seq<EntryModel>,
    pub fields: Seq<Seq<char>>,
    pub methods: Seq<FunctionModel>,
}

pub open spec fn names_view(v: Seq<String>) -> Seq<Seq<char>> {
    v.map_values(|s: String| s@)
}

pub open spec fn names_fit(s: Seq<Seq<char>>) -> bool {
    forall|i: int| 0 <= i < s.len() ==> str_fits(#[trigger] s[i])
}

pub open spec fn names_bytes(s: Seq<Seq<char>>) -> Seq<u8> {
    concat_bytes(s, |n: Seq<char>| str_bytes(n))
}

impl View for Class {
    type V = ClassModel;

    open spec fn view(&self) -> ClassModel {
        ClassModel {
            name: self.name@,
            constants: entries_view(self.constants@),
            fields: names_view(self.fields@),
            methods: functions_view(self.methods@),
        }
    }
}

/// The class can be written: each count and text fits its prefix, and every method has bytecode.
pub open spec fn class_fits(c: ClassModel) -> bool {
    &&& str_fits(c.name)
    &&& c.fields.len() <= 0xFF
    &&& names_fit(c.fields)
    &&& c.constants.len() <= 0xFFFF
    &&& entries_fit(c.constants)
    &&& c.methods.len() <= 0xFFFF
    &&& functions_fit(c.methods)
}

/// A class as written: name, field count and names, pool count and entries, method count and methods.
pub open spec fn class_bytes(t: ClassModel) -> Seq<u8> {
    str_bytes(t.name) + class_tail0(t)
}

pub open spec fn class_tail0(t: ClassModel) -> Seq<u8> {
    seq![t.fields.len() as u8] + class_tail1(t)
}

pub open spec fn class_tail1(t: ClassModel) -> Seq<u8> {
    names_bytes(t.fields) + class_tail2(t)
}

pub open spec fn class_tail2(t: ClassModel) -> Seq<u8> {
    u16_bytes(t.constants.len() as u16) + class_tail3(t)
}

pub open spec fn class_tail3(t: ClassModel) -> Seq<u8> {
    entries_bytes(t.constants) + class_tail4(t)
}

pub open spec fn class_tail4(t: ClassModel) -> Seq<u8> {
    u16_bytes(t.methods.len() as u16) + class_tail5(t)
}

pub open spec fn class_tail5(t: ClassModel) -> Seq<u8> {
    functions_bytes(t.methods)
}


/// Writes names: each one after the other.
pub fn write_names(out: &mut Vec<u8>, items: &Vec<String>)
    requires
        names_fit(names_view(items@)),
    ensures
        final(out)@ == old(out)@ + names_bytes(names_view(items@)),
{
    let ghost start = out@;
    let ghost f = |e: Seq<char>| str_bytes(e);
    let mut i: usize = 0;
    proof {
        assert(names_view(items@.subrange(0, 0)) =~= Seq::<Seq<char>>::empty());
        assert(names_bytes(Seq::<Seq<char>>::empty()) =~= Seq::<u8>::empty());
        assert(out@ =~= start + names_bytes(names_view(items@.subrange(0, 0))));
    }
    while i < items.len()
        invariant
            i <= items@.len(),
            names_fit(names_view(items@)),
            f == (|e: Seq<char>| str_bytes(e)),
            out@ == start + names_bytes(names_view(items@.subrange(0, i as int))),
        decreases items@.len() - i,
    {
        proof {
            assert(str_fits(names_view(items@)[i as int]));
        }
        write_str(out, items[i].as_str());
        proof {
            assert(names_view(items@.subrange(0, i + 1)) =~= names_view(items@.subrange(0, i as int)).push(items@[i as int]@));
            lemma_concat_push(names_view(items@.subrange(0, i as int)), items@[i as int]@, f);
        }
        i = i + 1;
        assert(out@ =~= start + names_bytes(names_view(items@.subrange(0, i as int))));
    }
    assert(items@.subrange(0, i as int) =~= items@);
}

/// Reads `count` of names from `pos` on.
pub fn read_names(b: &[u8], pos: usize, count: usize) -> (r: Result<(Vec<String>, usize), Error>)
    ensures
        r matches Ok((v, p)) ==> v@.len() == count && names_fit(names_view(v@)) && p == pos
            + names_bytes(names_view(v@)).len() && has_at(b@, pos as int, names_bytes(names_view(v@))),
        r is Err ==> r == Err::<(Vec<String>, usize), Error>(Error::MalformedModule),
        forall|t: Seq<Seq<char>>|
            t.len() == count && names_fit(t) && #[trigger] has_at(b@, pos as int, names_bytes(t)) ==> (r matches Ok((v, p))
                && names_view(v@) == t),
{
    let mut v: Vec<String> = Vec::new();
    let mut p = pos;
    let mut i: usize = 0;
    let ghost f = |e: Seq<char>| str_bytes(e);
    if pos > b.len() {
        return Err(Error::MalformedModule);
    }
    proof {
        assert(names_view(v@) =~= Seq::<Seq<char>>::empty());
        assert(names_bytes(Seq::<Seq<char>>::empty()) =~= Seq::<u8>::empty());
        assert(b@.subrange(pos as int, pos as int) =~= Seq::<u8>::empty());
    }
    while i < count
        invariant
            i <= count,
            v@.len() == i,
            names_fit(names_view(v@)),
            p == pos + names_bytes(names_view(v@)).len(),
            has_at(b@, pos as int, names_bytes(names_view(v@))),
            f == (|e: Seq<char>| str_bytes(e)),
            forall|t: Seq<Seq<char>>|
                t.len() == count && names_fit(t) && #[trigger] has_at(b@, pos as int, names_bytes(t)) ==> names_view(v@)
                    == t.subrange(0, i as int),
        decreases count - i,
    {
        proof {
            assert forall|t: Seq<Seq<char>>|
                t.len() == count && names_fit(t) && #[trigger] has_at(b@, pos as int, names_bytes(t)) implies has_at(
                    b@,
                    p as int,
                    str_bytes(t[i as int]),
                ) && str_fits(t[i as int]) by {
                lemma_concat_split(t, i as int, f);
                let tail = t.subrange(i as int, t.len() as int);
                lemma_concat_first(tail, f);
                assert(tail.subrange(1, tail.len() as int) =~= t.subrange(i + 1, t.len() as int));
                lemma_has_at_concat(b@, pos as int, names_bytes(t.subrange(0, i as int)), names_bytes(tail));
                lemma_has_at_concat(b@, p as int, str_bytes(t[i as int]), names_bytes(t.subrange(i + 1, t.len() as int)));
            }
        }
        let res = read_string(b, p);
        match res {
            Ok((e, q)) => {
                proof {
                    let old_view = names_view(v@);
                    lemma_concat_push(old_view, e@, f);
                    lemma_has_at_concat(b@, pos as int, names_bytes(old_view), str_bytes(e@));
                }
                let ghost v0 = v@;
                v.push(e);
                p = q;
                i = i + 1;
                proof {
                    assert(names_view(v@) =~= names_view(v0).push(v@[i - 1]@));
                    assert forall|t: Seq<Seq<char>>|
                        t.len() == count && names_fit(t) && #[trigger] has_at(b@, pos as int, names_bytes(t)) implies names_view(v@)
                            == t.subrange(0, i as int) by {
                        assert(names_view(v@) =~= t.subrange(0, i as int));
                    }
                }
            },
            Err(err) => {
                proof {
                    assert forall|t: Seq<Seq<char>>|
                        t.len() == count && names_fit(t) implies !#[trigger] has_at(b@, pos as int, names_bytes(t)) by {
                        if has_at(b@, pos as int, names_bytes(t)) {
                            assert(has_at(b@, p as int, str_bytes(t[i as int])));
                        }
                    }
                }
                return Err(err);
            },
        }
    }
    proof {
        assert forall|t: Seq<Seq<char>>|
            t.len() == count && names_fit(t) && #[trigger] has_at(b@, pos as int, names_bytes(t)) implies names_view(v@) == t by {
            assert(t.subrange(0, i as int) =~= t);
        }
    }
    Ok((v, p))
}

/// Whether every name fits its length prefix.
fn names_fit_exec(v: &Vec<String>) -> (r: bool)
    ensures
        r == names_fit(names_view(v@)),
{
    let mut i: usize = 0;
    while i < v.len()
        invariant
            i <= v@.len(),
            forall|j: int| 0 <= j < i ==> str_fits(#[trigger] names_view(v@)[j]),
        decreases v@.len() - i,
    {
        if !str_fits_exec(&v[i]) {
            assert(names_view(v@)[i as int] == v@[i as int]@);
            return false;
        }
        i = i + 1;
    }
    true
}

/// Whether every entry fits its length prefix.
pub fn entries_fit_exec(v: &Vec<PoolEntry>) -> (r: bool)
    ensures
        r == entries_fit(entries_view(v@)),
{
    let mut i: usize = 0;
    while i < v.len()
        invariant
            i <= v@.len(),
            forall|j: int| 0 <= j < i ==> crate::pool_entry::entry_fits(#[trigger] entries_view(v@)[j]),
        decreases v@.len() - i,
    {
        if !v[i].fits() {
            assert(entries_view(v@)[i as int] == v@[i as int]@);
            return false;
        }
        i = i + 1;
    }
    true
}

/// Whether every function can be written.
pub fn functions_fit_exec(v: &Vec<Function>) -> (r: bool)
    ensures
        r == functions_fit(functions_view(v@)),
{
    let mut i: usize = 0;
    while i < v.len()
        invariant
            i <= v@.len(),
            forall|j: int| 0 <= j < i ==> function_fits(#[trigger] functions_view(v@)[j]),
        decreases v@.len() - i,
    {
        if !v[i].fits() {
            assert(functions_view(v@)[i as int] == v@[i as int]@);
            return false;
        }
        i = i + 1;
    }
    true
}

impl Class {
    pub fn fits(&self) -> (r: bool)
        ensures
            r == class_fits(self@),
    {
        str_fits_exec(&self.name) && self.fields.len() <= 0xFF && names_fit_exec(&self.fields)
            && self.constants.len() <= 0xFFFF && entries_fit_exec(&self.constants)
            && self.methods.len() <= 0xFFFF && functions_fit_exec(&self.methods)
    }

    pub fn write(&self, out: &mut Vec<u8>)
        requires
            class_fits(self@),
        ensures
            final(out)@ == old(out)@ + class_bytes(self@),
    {
        write_str(out, self.name.as_str());
        write_u8(out, self.fields.len() as u8);
        write_names(out, &self.fields);
        write_u16(out, self.constants.len() as u16);
        write_entries(out, &self.constants);
        write_u16(out, self.methods.len() as u16);
        write_functions(out, &self.methods);
        assert(out@ =~= old(out)@ + class_bytes(self@));
    }

    /// Reads one class at `pos`.
    #[verifier::rlimit(100)]
    #[verifier::spinoff_prover]
    pub fn read(b: &[u8], pos: usize) -> (r: Result<(Class, usize), Error>)
        ensures
            r matches Ok((c, p)) ==> class_fits(c@) && p == pos + class_bytes(c@).len() && has_at(
                b@,
                pos as int,
                class_bytes(c@),
            ),
            r is Err ==> r == Err::<(Class, usize), Error>(Error::MalformedModule),
            forall|t: ClassModel|
                class_fits(t) && #[trigger] has_at(b@, pos as int, class_bytes(t)) ==> (r matches Ok((c, p))
                    && c@ == t),
    {
        let blen = b.len();
        proof {
            assert forall|t: ClassModel| class_fits(t) && #[trigger] has_at(b@, pos as int, class_bytes(t)) implies has_at(b@, pos as int, str_bytes(t.name) + class_tail0(t)) by {}
        }
        let (name, at1) = match read_string(b, pos) {
            Ok(x) => x,
            Err(e) => {
                proof {
                    assert forall|t: ClassModel| class_fits(t) implies !#[trigger] has_at(b@, pos as int, class_bytes(t)) by {
                        if has_at(b@, pos as int, class_bytes(t)) {
                            lemma_has_at_concat(b@, pos as int, str_bytes(t.name), class_tail0(t));
                            
                        }
                    }
                }
                return Err(e);
            },
        };
        proof {
            assert forall|t: ClassModel| class_fits(t) && #[trigger] has_at(b@, pos as int, class_bytes(t)) implies t.name == name@ && has_at(b@, at1 as int, class_tail0(t)) by {
                lemma_has_at_concat(b@, pos as int, str_bytes(t.name), class_tail0(t));
                
            }
        }
        let (nfields, at2) = match read_u8(b, at1) {
            Ok(x) => x,
            Err(e) => {
                proof {
                    assert forall|t: ClassModel| class_fits(t) implies !#[trigger] has_at(b@, pos as int, class_bytes(t)) by {
                        if has_at(b@, pos as int, class_bytes(t)) {
                            lemma_has_at_concat(b@, at1 as int, seq![t.fields.len() as u8], class_tail1(t));
                            assert(b@.subrange(at1 as int, at1 + 1)[0] == b@[at1 as int]);
                        }
                    }
                }
                return Err(e);
            },
        };
        proof {
            assert forall|t: ClassModel| class_fits(t) && #[trigger] has_at(b@, pos as int, class_bytes(t)) implies t.fields.len() == nfields as int && has_at(b@, at2 as int, class_tail1(t)) by {
                lemma_has_at_concat(b@, at1 as int, seq![t.fields.len() as u8], class_tail1(t));
                assert(b@.subrange(at1 as int, at1 + 1)[0] == b@[at1 as int]);
            }
        }
        let (fields, at3) = match read_names(b, at2, nfields as usize) {
            Ok(x) => x,
            Err(e) => {
                proof {
                    assert forall|t: ClassModel| class_fits(t) implies !#[trigger] has_at(b@, pos as int, class_bytes(t)) by {
                        if has_at(b@, pos as int, class_bytes(t)) {
                            lemma_has_at_concat(b@, at2 as int, names_bytes(t.fields), class_tail2(t));
                            
                        }
                    }
                }
                return Err(e);
            },
        };
        proof {
            assert forall|t: ClassModel| class_fits(t) && #[trigger] has_at(b@, pos as int, class_bytes(t)) implies t.fields == names_view(fields@) && has_at(b@, at3 as int, class_tail2(t)) by {
                lemma_has_at_concat(b@, at2 as int, names_bytes(t.fields), class_tail2(t));
                
            }
        }
        let (npool, at4) = match read_u16(b, at3) {
            Ok(x) => x,
            Err(e) => {
                proof {
                    assert forall|t: ClassModel| class_fits(t) implies !#[trigger] has_at(b@, pos as int, class_bytes(t)) by {
                        if has_at(b@, pos as int, class_bytes(t)) {
                            lemma_has_at_concat(b@, at3 as int, u16_bytes(t.constants.len() as u16), class_tail3(t));
                            
                        }
                    }
                }
                return Err(e);
            },
        };
        proof {
            assert forall|t: ClassModel| class_fits(t) && #[trigger] has_at(b@, pos as int, class_bytes(t)) implies t.constants.len() == npool as int && has_at(b@, at4 as int, class_tail3(t)) by {
                lemma_has_at_concat(b@, at3 as int, u16_bytes(t.constants.len() as u16), class_tail3(t));
                
            }
        }
        let (constants, at5) = match read_entries(b, at4, npool as usize) {
            Ok(x) => x,
            Err(e) => {
                proof {
                    assert forall|t: ClassModel| class_fits(t) implies !#[trigger] has_at(b@, pos as int, class_bytes(t)) by {
                        if has_at(b@, pos as int, class_bytes(t)) {
                            lemma_has_at_concat(b@, at4 as int, entries_bytes(t.constants), class_tail4(t));
                            
                        }
                    }
                }
                return Err(e);
            },
        };
        proof {
            assert forall|t: ClassModel| class_fits(t) && #[trigger] has_at(b@, pos as int, class_bytes(t)) implies t.constants == entries_view(constants@) && has_at(b@, at5 as int, class_tail4(t)) by {
                lemma_has_at_concat(b@, at4 as int, entries_bytes(t.constants), class_tail4(t));
                
            }
        }
        let (nmethods, at6) = match read_u16(b, at5) {
            Ok(x) => x,
            Err(e) => {
                proof {
                    assert forall|t: ClassModel| class_fits(t) implies !#[trigger] has_at(b@, pos as int, class_bytes(t)) by {
                        if has_at(b@, pos as int, class_bytes(t)) {
                            lemma_has_at_concat(b@, at5 as int, u16_bytes(t.methods.len() as u16), class_tail5(t));
                            
                        }
                    }
                }
                return Err(e);
            },
        };
        proof {
            assert forall|t: ClassModel| class_fits(t) && #[trigger] has_at(b@, pos as int, class_bytes(t)) implies t.methods.len() == nmethods as int && has_at(b@, at6 as int, class_tail5(t)) by {
                lemma_has_at_concat(b@, at5 as int, u16_bytes(t.methods.len() as u16), class_tail5(t));
                
            }
        }
        let (methods, at7) = match read_functions(b, at6, nmethods as usize) {
            Ok(x) => x,
            Err(e) => {
                proof {
                    assert forall|t: ClassModel| class_fits(t) implies !#[trigger] has_at(b@, pos as int, class_bytes(t)) by {
                        if has_at(b@, pos as int, class_bytes(t)) {
                            assert(functions_bytes(t.methods) + Seq::<u8>::empty() =~= functions_bytes(t.methods));
                            lemma_has_at_concat(b@, at6 as int, functions_bytes(t.methods), Seq::<u8>::empty());
                            
                        }
                    }
                }
                return Err(e);
            },
        };
        proof {
            assert forall|t: ClassModel| class_fits(t) && #[trigger] has_at(b@, pos as int, class_bytes(t)) implies t.methods == functions_view(methods@) && true by {
                assert(functions_bytes(t.methods) + Seq::<u8>::empty() =~= functions_bytes(t.methods));
                            lemma_has_at_concat(b@, at6 as int, functions_bytes(t.methods), Seq::<u8>::empty());
                
            }
        }
        let r = Class { name, constants, fields, methods };
        proof {
            
            assert(functions_bytes(r@.methods) == class_tail5(r@));
            
            lemma_has_at_concat(b@, at5 as int, u16_bytes(r@.methods.len() as u16), class_tail5(r@));
            assert(u16_bytes(r@.methods.len() as u16) + class_tail5(r@) == class_tail4(r@));
            
            lemma_has_at_concat(b@, at4 as int, entries_bytes(r@.constants), class_tail4(r@));
            assert(entries_bytes(r@.constants) + class_tail4(r@) == class_tail3(r@));
            
            lemma_has_at_concat(b@, at3 as int, u16_bytes(r@.constants.len() as u16), class_tail3(r@));
            assert(u16_bytes(r@.constants.len() as u16) + class_tail3(r@) == class_tail2(r@));
            
            lemma_has_at_concat(b@, at2 as int, names_bytes(r@.fields), class_tail2(r@));
            assert(names_bytes(r@.fields) + class_tail2(r@) == class_tail1(r@));
            assert(b@.subrange(at1 as int, at1 + 1) =~= seq![r@.fields.len() as u8]);
            lemma_has_at_concat(b@, at1 as int, seq![r@.fields.len() as u8], class_tail1(r@));
            assert(seq![r@.fields.len() as u8] + class_tail1(r@) == class_tail0(r@));
            assert(has_at(b@, pos as int, str_bytes(r@.name)));
            lemma_has_at_concat(b@, pos as int, str_bytes(r@.name), class_tail0(r@));
            assert(class_bytes(r@) == str_bytes(r@.name) + class_tail0(r@));
            assert forall|t: ClassModel| class_fits(t) && #[trigger] has_at(b@, pos as int, class_bytes(t)) implies r@ == t by {  }
        }
        Ok((r, at7))
    }
}


/// The index of the first of `names` equal to `name`.
pub fn find_name(names: &Vec<String>, name: &String) -> (r: Option<usize>)
    ensures
        r matches Some(i) ==> i < names@.len() && names@[i as int]@ == name@ && forall|j: int|
            0 <= j < i ==> names@[j]@ != name@,
        r is None ==> forall|j: int| 0 <= j < names@.len() ==> names@[j]@ != name@,
{
    let mut i: usize = 0;
    while i < names.len()
        invariant
            i <= names@.len(),
            forall|j: int| 0 <= j < i ==> names@[j]@ != name@,
        decreases names@.len() - i,
    {
        if names[i] == *name {
            return Some(i);
        }
        i = i + 1;
    }
    None
}

impl Class {
    /// The field named `name`: public, at the position of its declaration.
    pub fn field(&self, name: &String) -> (r: Result<Field, Error>)
        ensures
            r matches Ok(f) ==> f.offset < self.fields@.len() && self.fields@[f.offset as int]@ == name@
                && f.vis == FIELD_PUBLIC && forall|j: int| 0 <= j < f.offset ==> self.fields@[j]@ != name@,
            r is Err <==> self.fields@.len() > 0xFF || forall|j: int| 0 <= j < self.fields@.len() ==> self.fields@[j]@ != name@,
            r matches Err(e) ==> e matches Error::FieldNotFound(n) && n@ == name@,
    {
        if self.fields.len() > 0xFF {
            return Err(Error::FieldNotFound(name.clone()));
        }
        match find_name(&self.fields, name) {
            Some(i) => Ok(Field { vis: FIELD_PUBLIC, offset: i as u8 }),
            None => Err(Error::FieldNotFound(name.clone())),
        }
    }

    /// The first method named `name`.
    pub fn fetch_function_with_name(&self, name: &String) -> (r: Result<&Function, Error>)
        ensures
            r matches Ok(f) ==> exists|i: int| first_named(self.methods@, name@, i) && self.methods@[i] == *f,
            r is Err <==> forall|j: int| 0 <= j < self.methods@.len() ==> self.methods@[j].name@ != name@,
            r matches Err(e) ==> e matches Error::FunctionNotFound(n) && n@ == name@,
    {
        match find_function(&self.methods, name) {
            Some(i) => {
                assert(first_named(self.methods@, name@, i as int));
                Ok(&self.methods[i])
            },
            None => Err(Error::FunctionNotFound(name.clone())),
        }
    }
}

/// Builds a class step by step.
pub struct ClassBuilder {
    name: String,
    fields: Vec<String>,
    constants: Vec<PoolEntry>,
    methods: Vec<Function>,
}

impl ClassBuilder {
    /// The class that `build` would give.
    pub closed spec fn model(&self) -> ClassModel {
        ClassModel {
            name: self.name@,
            constants: entries_view(self.constants@),
            fields: names_view(self.fields@),
            methods: functions_view(self.methods@),
        }
    }

    pub fn new() -> (r: ClassBuilder)
        ensures
            r.model() == (ClassModel {
                name: Seq::empty(),
                constants: Seq::empty(),
                fields: Seq::empty(),
                methods: Seq::empty(),
            }),
    {
        let r = ClassBuilder { name: String::new(), fields: Vec::new(), constants: Vec::new(), methods: Vec::new() };
        assert(r.model().constants =~= Seq::<EntryModel>::empty());
        assert(r.model().fields =~= Seq::<Seq<char>>::empty());
        assert(r.model().methods =~= Seq::<FunctionModel>::empty());
        r
    }

    /// Names the class, and adds its own name to its pool.
    pub fn with_name(self, name: &str) -> (r: ClassBuilder)
        ensures
            r.model() == (ClassModel {
                name: name@,
                constants: self.model().constants.push(EntryModel::Class(name@)),
                ..self.model()
            }),
    {
        let mut constants = self.constants;
        let ghost c0 = constants@;
        constants.push(PoolEntry::Class(name.to_string()));
        let r = ClassBuilder { name: name.to_string(), fields: self.fields, constants, methods: self.methods };
        assert(entries_view(r.constants@) =~= entries_view(c0).push(EntryModel::Class(name@)));
        r
    }

    /// Declares a field after the others, unless one of that name exists.
    pub fn with_field(self, field_name: &str) -> (r: ClassBuilder)
        ensures
            self.model().fields.contains(field_name@) ==> r.model() == self.model(),
            !self.model().fields.contains(field_name@) ==> r.model() == (ClassModel {
                fields: self.model().fields.push(field_name@),
                ..self.model()
            }),
    {
        let name = field_name.to_string();
        let mut fields = self.fields;
        let ghost f0 = fields@;
        match find_name(&fields, &name) {
            Some(i) => {
                proof {
                    assert(names_view(f0)[i as int] == field_name@);
                }
            },
            None => {
                proof {
                    assert forall|j: int| 0 <= j < f0.len() implies names_view(f0)[j] != field_name@ by {
                        assert(names_view(f0)[j] == f0[j]@);
                    }
                }
                fields.push(name);
                assert(names_view(fields@) =~= names_view(f0).push(field_name@));
            },
        }
        ClassBuilder { name: self.name, fields, constants: self.constants, methods: self.methods }
    }

    pub fn with_constant(self, entry: PoolEntry) -> (r: ClassBuilder)
        ensures
            r.model() == (ClassModel { constants: self.model().constants.push(entry@), ..self.model() }),
    {
        let mut constants = self.constants;
        let ghost c0 = constants@;
        constants.push(entry);
        let r = ClassBuilder { name: self.name, fields: self.fields, constants, methods: self.methods };
        assert(entries_view(r.constants@) =~= entries_view(c0).push(entry@));
        r
    }

    pub fn with_method(self, method: Function) -> (r: ClassBuilder)
        ensures
            r.model() == (ClassModel { methods: self.model().methods.push(method@), ..self.model() }),
    {
        let mut methods = self.methods;
        let ghost m0 = methods@;
        methods.push(method);
        let r = ClassBuilder { name: self.name, fields: self.fields, constants: self.constants, methods };
        assert(functions_view(r.methods@) =~= functions_view(m0).push(method@));
        r
    }

    pub fn build(self) -> (r: Class)
        ensures
            r@ == self.model(),
    {
        Class { name: self.name, constants: self.constants, fields: self.fields, methods: self.methods }
    }
}
} // verus!
