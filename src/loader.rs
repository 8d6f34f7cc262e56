use vstd::prelude::*;

use crate::class::{names_view, Class, ClassModel};
use crate::arena::LoaderArena;
use crate::context::{
    class_names_unique, deref_classes, deref_modules, find_class, find_module, module_names_unique,
    Context,
};
use crate::error::Error;
use crate::module::{classes_view, Module, ModuleModel};
use crate::pool_entry::PoolEntry;

verus! {

/// Some module of `ms` is named `n`.
pub open spec fn named_in(ms: Seq<Module>, n: Seq<char>) -> bool {
    exists|i: int| 0 <= i < ms.len() && #[trigger] ms[i].name@ == n
}

/// The module names that a pool asks for, in pool order, leaving out the module's own name
/// `own` and those already among `loaded`.
pub open spec fn queued(pool: Seq<PoolEntry>, loaded: Seq<Module>, own: Seq<char>) -> Seq<Seq<char>>
    decreases pool.len(),
{
    if pool.len() == 0 {
        Seq::empty()
    } else {
        let rest = queued(pool.drop_last(), loaded, own);
        match pool.last() {
            PoolEntry::Module(n) => if n@ != own && !named_in(loaded, n@) {
                rest.push(n@)
            } else {
                rest
            },
            _ => rest,
        }
    }
}

/// Collects the modules of a program, starting from one, and then each module that a loaded
/// one names in its constant pool. The host reads the files: it asks `next_wanted` which module
/// to read, and hands it over with `provide`.
pub struct Loader<'c> {
    arena: &'c LoaderArena,
    modules: Vec<&'c Module>,
    classes: Vec<&'c Class>,
    pending: Vec<String>,
}

impl<'c> Loader<'c> {
    pub closed spec fn modules_spec(&self) -> Seq<Module> {
        deref_modules(self.modules@)
    }

    pub closed spec fn classes_spec(&self) -> Seq<Class> {
        deref_classes(self.classes@)
    }

    /// The names still to be loaded, the next one last.
    pub closed spec fn pending_spec(&self) -> Seq<Seq<char>> {
        names_view(self.pending@)
    }

    pub open spec fn is_loaded(&self, name: Seq<char>) -> bool {
        exists|i: int| 0 <= i < self.modules_spec().len() && #[trigger] self.modules_spec()[i].name@ == name
    }

    /// A module or class name is registered at most once.
    pub open spec fn wf(&self) -> bool {
        module_names_unique(self.modules_spec()) && class_names_unique(self.classes_spec())
    }

    /// A loader that knows the built-in modules `std:out`, `file` and `tcp`.
    pub fn new(arena: &'c LoaderArena) -> (r: Loader<'c>)
        ensures
            r.wf(),
            r.modules_spec().len() == 3,
            r.modules_spec()[0].name@ == "std:out"@,
            r.modules_spec()[1].name@ == "file"@,
            r.modules_spec()[2].name@ == "tcp"@,
            r.classes_spec().len() == 0,
            r.pending_spec().len() == 0,
    {
        let mut modules: Vec<&'c Module> = Vec::new();
        modules.push(arena.alloc_module(crate::module::std_out::module()));
        modules.push(arena.alloc_module(crate::module::file::module()));
        modules.push(arena.alloc_module(crate::module::tcp::module()));
        proof {
            reveal_strlit("std:out");
            reveal_strlit("file");
            reveal_strlit("tcp");
            assert(modules@[0].name@.len() == 7);
            assert(modules@[1].name@.len() == 4);
            assert(modules@[2].name@.len() == 3);
        }
        let r = Loader { arena, modules, classes: Vec::new(), pending: Vec::new() };
        assert(r.pending_spec() =~= Seq::<Seq<char>>::empty());
        assert(r.classes_spec() =~= Seq::<Class>::empty());
        r
    }

    /// Asks for the module `module` and, through it, for every module it needs.
    pub fn load_path(&mut self, module: &str)
        ensures
            final(self).modules_spec() == old(self).modules_spec(),
            final(self).classes_spec() == old(self).classes_spec(),
            final(self).pending_spec() == old(self).pending_spec().push(module@),
    {
        let ghost pend_start = self.pending@;
        self.pending.push(module.to_string());
        assert(self.pending_spec() =~= names_view(pend_start).push(module@));
    }

    /// The next module to read: one asked for and not loaded yet. `None` when every module
    /// asked for is loaded.
    pub fn next_wanted(&mut self) -> (r: Option<String>)
        ensures
            final(self).modules_spec() == old(self).modules_spec(),
            final(self).classes_spec() == old(self).classes_spec(),
            r matches Some(n) ==> !old(self).is_loaded(n@),
            r is None ==> final(self).pending_spec().len() == 0 && forall|j: int|
                0 <= j < old(self).pending_spec().len() ==> old(self).is_loaded(#[trigger] old(self).pending_spec()[j]),
            final(self).pending_spec().len() < old(self).pending_spec().len() || (r is None
                && old(self).pending_spec().len() == 0),
            r matches Some(n) ==> exists|k: int|
                0 <= k < old(self).pending_spec().len() && old(self).pending_spec()[k] == n@
                    && final(self).pending_spec() == old(self).pending_spec().subrange(0, k),
    {
        let ghost pend_start = self.pending_spec();
        while self.pending.len() > 0
            invariant
                self.modules@ == old(self).modules@,
                self.classes@ == old(self).classes@,
                pend_start == old(self).pending_spec(),
                self.pending_spec() == pend_start.subrange(0, self.pending_spec().len() as int),
                self.pending_spec().len() <= pend_start.len(),
                forall|j: int| self.pending_spec().len() <= j < pend_start.len() ==> old(self).is_loaded(#[trigger] pend_start[j]),
            decreases self.pending@.len(),
        {
            let ghost before = self.pending@;
            let n = self.pending.pop().unwrap();
            proof {
                assert(self.pending_spec() =~= names_view(before).drop_last());
                assert(before[before.len() - 1] == n);
                assert(names_view(before)[before.len() - 1] == n@);
                assert(names_view(before) == pend_start.subrange(0, before.len() as int));
                assert(pend_start[self.pending_spec().len() as int] == n@);
            }
            match find_module(&self.modules, &n) {
                Some(idx) => {
                    proof {
                        assert(old(self).modules_spec()[idx as int].name@ == n@);
                        assert(old(self).is_loaded(n@));
                        assert(self.pending_spec() =~= pend_start.subrange(0, self.pending_spec().len() as int));
                    }
                },
                None => {
                    proof {
                        assert(self.pending_spec() =~= pend_start.subrange(0, self.pending_spec().len() as int));
                    }
                    return Some(n);
                },
            }
        }
        proof {
            assert(self.pending_spec().len() == 0);
        }
        None
    }

    /// Registers a module that was read, with its classes, and asks for every module its
    /// pool names. A class or module name that is already registered is refused, and the
    /// loader is then left as it was.
    pub fn provide(&mut self, module: Module) -> (r: Result<(), Error>)
        requires
            old(self).wf(),
        ensures
            final(self).wf(),
            !class_names_unique(old(self).classes_spec() + module.classes@) ==> (r matches Err(e)
                && e is ClassAlreadyExists && *final(self) == *old(self)),
            class_names_unique(old(self).classes_spec() + module.classes@) && old(self).is_loaded(module.name@)
                ==> (r matches Err(e) && e is ModuleAlreadyExists && *final(self) == *old(self)),
            class_names_unique(old(self).classes_spec() + module.classes@) && !old(self).is_loaded(module.name@)
                ==> {
                &&& r is Ok
                &&& final(self).classes_spec() == old(self).classes_spec() + module.classes@
                &&& final(self).modules_spec().len() == old(self).modules_spec().len() + 1
                &&& final(self).modules_spec().subrange(0, old(self).modules_spec().len() as int) == old(self).modules_spec()
                &&& final(self).modules_spec().last()@ == (ModuleModel { classes: Seq::empty(), ..module@ })
                &&& final(self).pending_spec() == old(self).pending_spec() + queued(module.constants@,
                    old(self).modules_spec(), module.name@)
            },
    {
        let mut m = module;
        let mut classes: Vec<Class> = Vec::new();
        core::mem::swap(&mut m.classes, &mut classes);
        let ghost reg = deref_classes(self.classes@);
        let mut i: usize = 0;
        while i < classes.len()
            invariant
                i <= classes@.len(),
                deref_classes(self.classes@) == reg,
                *self == *old(self),
                self.wf(),
                reg == old(self).classes_spec(),
                classes@ == module.classes@,
                class_names_unique(reg),
                class_names_unique(reg + classes@.subrange(0, i as int)),
            decreases classes@.len() - i,
        {
            let ghost all = reg + classes@;
            match find_class(&self.classes, &classes[i].name) {
                Some(k) => {
                    proof {
                        assert(reg[k as int] == *self.classes@[k as int]);
                        assert(all[k as int].name@ == all[reg.len() + i].name@);
                    }
                    return Err(Error::ClassAlreadyExists(classes[i].name.clone()));
                },
                None => {},
            }
            let mut j: usize = 0;
            while j < i
                invariant
                    j <= i,
                    i < classes@.len(),
                    all == reg + classes@,
                    *self == *old(self),
                    self.wf(),
                    reg == old(self).classes_spec(),
                    classes@ == module.classes@,
                    forall|q: int| 0 <= q < j ==> classes@[q].name@ != classes@[i as int].name@,
                decreases i - j,
            {
                if classes[j].name == classes[i].name {
                    proof {
                        assert(all[reg.len() + j].name@ == all[reg.len() + i].name@);
                    }
                    return Err(Error::ClassAlreadyExists(classes[i].name.clone()));
                }
                j = j + 1;
            }
            proof {
                let s1 = reg + classes@.subrange(0, i + 1);
                let s0 = reg + classes@.subrange(0, i as int);
                assert forall|a: int, b: int| 0 <= a < s1.len() && 0 <= b < s1.len() && a != b implies #[trigger] s1[a].name@ != #[trigger] s1[b].name@ by {
                    if a < s0.len() && b < s0.len() {
                        assert(s1[a] == s0[a] && s1[b] == s0[b]);
                    } else if a < s0.len() {
                        assert(s1[b] == classes@[i as int]);
                        if a < reg.len() {
                            assert(s1[a] == reg[a]);
                        } else {
                            assert(s1[a] == classes@[a - reg.len()]);
                        }
                    } else if b < s0.len() {
                        assert(s1[a] == classes@[i as int]);
                        if b < reg.len() {
                            assert(s1[b] == reg[b]);
                        } else {
                            assert(s1[b] == classes@[b - reg.len()]);
                        }
                    }
                }
            }
            i = i + 1;
        }
        proof {
            assert(classes@.subrange(0, i as int) =~= classes@);
        }
        proof {
            assert(m.name@ == module.name@);
        }
        match find_module(&self.modules, &m.name) {
            Some(idx) => {
                proof {
                    assert(self.modules_spec()[idx as int] == *self.modules@[idx as int]);
                    assert(old(self).modules_spec()[idx as int].name@ == module.name@);
                }
                return Err(Error::ModuleAlreadyExists(m.name.clone()));
            },
            None => {},
        }
        let ghost cl = classes@;
        let n = classes.len();
        let mut j: usize = 0;
        while j < n
            invariant
                j <= n,
                n == cl.len(),
                classes@ == cl.subrange(j as int, n as int),
                deref_classes(self.classes@) == reg + cl.subrange(0, j as int),
                self.modules@ == old(self).modules@,
                self.arena == old(self).arena,
                self.pending@ == old(self).pending@,
                forall|k: int| 0 <= k < self.modules@.len() ==> self.modules@[k].name@ != m.name@,
            decreases n - j,
        {
            let c = classes.remove(0);
            let rc = self.arena.alloc_class(c);
            let ghost before = self.classes@;
            self.classes.push(rc);
            proof {
                assert(deref_classes(self.classes@) =~= deref_classes(before).push(*rc));
                assert(cl.subrange(0, j + 1) =~= cl.subrange(0, j as int).push(cl[j as int]));
                assert(classes@ =~= cl.subrange(j + 1, n as int));
            }
            j = j + 1;
        }
        proof {
            assert(cl.subrange(0, n as int) =~= cl);
        }
        let mut k: usize = 0;
        while k < m.constants.len()
            invariant
                k <= m.constants@.len(),
                self.modules@ == old(self).modules@,
                self.arena == old(self).arena,
                deref_classes(self.classes@) == reg + cl,
                module_names_unique(deref_modules(self.modules@)),
                class_names_unique(reg + cl),
                forall|j: int| 0 <= j < self.modules@.len() ==> self.modules@[j].name@ != m.name@,
                m.name@ == module.name@,
                m.constants@ == module.constants@,
                m.functions@ == module.functions@,
                m.classes@.len() == 0,
                self.pending_spec() == old(self).pending_spec() + queued(m.constants@.subrange(0, k as int),
                    old(self).modules_spec(), m.name@),
            decreases m.constants@.len() - k,
        {
            let ghost pend_before = self.pending@;
            proof {
                assert(m.constants@.subrange(0, k + 1).drop_last() =~= m.constants@.subrange(0, k as int));
                assert(deref_modules(self.modules@) == old(self).modules_spec());
            }
            match &m.constants[k] {
                PoolEntry::Module(n) => {
                    let is_new = if *n != m.name {
                        match find_module(&self.modules, n) {
                            Some(idx) => {
                                proof {
                                    assert(old(self).modules_spec()[idx as int] == *self.modules@[idx as int]);
                                    assert(named_in(old(self).modules_spec(), n@));
                                }
                                false
                            },
                            None => true,
                        }
                    } else {
                        false
                    };
                    if is_new {
                        self.pending.push(n.clone());
                        proof {
                            assert(names_view(self.pending@) =~= names_view(pend_before).push(n@));
                            assert forall|i: int| 0 <= i < old(self).modules_spec().len() implies old(self).modules_spec()[i].name@ != n@ by {
                                assert(old(self).modules_spec()[i] == *self.modules@[i]);
                            }
                        }
                    }
                },
                _ => {},
            }
            k = k + 1;
        }
        proof {
            assert(m.constants@.subrange(0, k as int) =~= m.constants@);
        }
        let ghost mm = m@;
        let ghost n_old = self.modules@.len();
        let ghost mods0 = self.modules@;
        let rm = self.arena.alloc_module(m);
        self.modules.push(rm);
        proof {
            assert(classes_view(Seq::<Class>::empty()) =~= Seq::<ClassModel>::empty());
            let ms = deref_modules(self.modules@);
            let ms0 = deref_modules(mods0);
            assert(ms.subrange(0, n_old as int) =~= ms0);
            assert(ms[n_old as int] == *rm);
            assert forall|a: int, b: int| 0 <= a < ms.len() && 0 <= b < ms.len() && a != b implies #[trigger] ms[a].name@ != #[trigger] ms[b].name@ by {
                if a < n_old && b < n_old {
                    assert(ms[a] == ms0[a] && ms[b] == ms0[b]);
                } else if a < n_old {
                    assert(ms[a] == ms0[a]);
                    assert(ms0[a] == *mods0[a]);
                } else if b < n_old {
                    assert(ms[b] == ms0[b]);
                    assert(ms0[b] == *mods0[b]);
                }
            }
        }
        Ok(())
    }

    /// The loaded program.
    pub fn to_context(self) -> (r: Context<'c>)
        requires
            self.wf(),
        ensures
            r.modules_spec() == self.modules_spec(),
            r.classes_spec() == self.classes_spec(),
            r.wf(),
    {
        Context::new(self.modules, self.classes)
    }
}

} // verus!
