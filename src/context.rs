use vstd::prelude::*;

use crate::class::Class;
use crate::error::Error;
use crate::module::Module;

verus! {

pub open spec fn module_names_unique(ms: Seq<Module>) -> bool {
    forall|i: int, j: int|
        0 <= i < ms.len() && 0 <= j < ms.len() && i != j ==> #[trigger] ms[i].name@ != #[trigger] ms[j].name@
}

pub open spec fn class_names_unique(cs: Seq<Class>) -> bool {
    forall|i: int, j: int|
        0 <= i < cs.len() && 0 <= j < cs.len() && i != j ==> #[trigger] cs[i].name@ != #[trigger] cs[j].name@
}

/// The index of the module named `name`.
pub fn find_module(ms: &Vec<&Module>, name: &String) -> (r: Option<usize>)
    ensures
        r matches Some(i) ==> i < ms@.len() && ms@[i as int].name@ == name@,
        r is None ==> forall|j: int| 0 <= j < ms@.len() ==> ms@[j].name@ != name@,
{
    let mut i: usize = 0;
    while i < ms.len()
        invariant
            i <= ms@.len(),
            forall|j: int| 0 <= j < i ==> ms@[j].name@ != name@,
        decreases ms@.len() - i,
    {
        if ms[i].name == *name {
            return Some(i);
        }
        i = i + 1;
    }
    None
}

/// The index of the class named `name`.
pub fn find_class(cs: &Vec<&Class>, name: &String) -> (r: Option<usize>)
    ensures
        r matches Some(i) ==> i < cs@.len() && cs@[i as int].name@ == name@,
        r is None ==> forall|j: int| 0 <= j < cs@.len() ==> cs@[j].name@ != name@,
{
    let mut i: usize = 0;
    while i < cs.len()
        invariant
            i <= cs@.len(),
            forall|j: int| 0 <= j < i ==> cs@[j].name@ != name@,
        decreases cs@.len() - i,
    {
        if cs[i].name == *name {
            return Some(i);
        }
        i = i + 1;
    }
    None
}

/// The modules that references lead to.
pub open spec fn deref_modules(s: Seq<&Module>) -> Seq<Module> {
    s.map_values(|m: &Module| *m)
}

/// The classes that references lead to.
pub open spec fn deref_classes(s: Seq<&Class>) -> Seq<Class> {
    s.map_values(|c: &Class| *c)
}

/// The loaded program, read-only: modules and classes by name, owned by an arena that
/// outlives it.
pub struct Context<'c> {
    pub(crate) modules: Vec<&'c Module>,
    pub(crate) classes: Vec<&'c Class>,
}

impl<'c> Context<'c> {
    pub closed spec fn modules_spec(&self) -> Seq<Module> {
        deref_modules(self.modules@)
    }

    pub closed spec fn classes_spec(&self) -> Seq<Class> {
        deref_classes(self.classes@)
    }

    /// Each module name and each class name is registered once.
    pub open spec fn wf(&self) -> bool {
        module_names_unique(self.modules_spec()) && class_names_unique(self.classes_spec())
    }

    pub fn new(modules: Vec<&'c Module>, classes: Vec<&'c Class>) -> (r: Context<'c>)
        requires
            module_names_unique(deref_modules(modules@)),
            class_names_unique(deref_classes(classes@)),
        ensures
            r.modules_spec() == deref_modules(modules@),
            r.classes_spec() == deref_classes(classes@),
            r.wf(),
    {
        Context { modules, classes }
    }

    pub fn modules(&self) -> (r: &Vec<&'c Module>)
        ensures
            deref_modules(r@) == self.modules_spec(),
            r@.len() == self.modules_spec().len(),
            forall|i: int| 0 <= i < r@.len() ==> *#[trigger] r@[i] == self.modules_spec()[i],
    {
        &self.modules
    }

    pub fn classes(&self) -> (r: &Vec<&'c Class>)
        ensures
            deref_classes(r@) == self.classes_spec(),
            r@.len() == self.classes_spec().len(),
            forall|i: int| 0 <= i < r@.len() ==> *#[trigger] r@[i] == self.classes_spec()[i],
    {
        &self.classes
    }

    pub fn fetch_module(&self, module_name: &String) -> (r: Result<&'c Module, Error>)
        ensures
            r matches Ok(m) ==> exists|i: int| 0 <= i < self.modules_spec().len() && self.modules_spec()[i] == *m
                && m.name@ == module_name@,
            r is Err <==> forall|j: int| 0 <= j < self.modules_spec().len() ==> self.modules_spec()[j].name@ != module_name@,
            r matches Err(e) ==> e matches Error::ModuleNotFound(n) && n@ == module_name@,
    {
        match find_module(&self.modules, module_name) {
            Some(i) => {
                assert(self.modules_spec()[i as int].name@ == module_name@);
                Ok(self.modules[i])
            },
            None => Err(Error::ModuleNotFound(module_name.clone())),
        }
    }

    pub fn fetch_class(&self, class_name: &String) -> (r: Result<&'c Class, Error>)
        ensures
            r matches Ok(c) ==> exists|i: int| 0 <= i < self.classes_spec().len() && self.classes_spec()[i] == *c
                && c.name@ == class_name@,
            r is Err <==> forall|j: int| 0 <= j < self.classes_spec().len() ==> self.classes_spec()[j].name@ != class_name@,
            r matches Err(e) ==> e matches Error::ClassNotFound(n) && n@ == class_name@,
    {
        match find_class(&self.classes, class_name) {
            Some(i) => {
                assert(self.classes_spec()[i as int].name@ == class_name@);
                Ok(self.classes[i])
            },
            None => Err(Error::ClassNotFound(class_name.clone())),
        }
    }
}

} // verus!
