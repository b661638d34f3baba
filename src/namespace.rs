//! The namespace of modules that type checking walks through.
use vstd::prelude::*;

verus! {

/// Whether a type should be inserted into the trait map when an implementation of the trait
/// cannot be found.
#[derive(Clone, Copy, Debug, PartialEq, Eq, Structural)]
pub enum TryInsertingTraitImplOnFailure {
    Yes,
    No,
}

/// A module of a package, known by its absolute path: the package name, then the names of the
/// modules down to it.
#[derive(Debug)]
pub struct Module {
    pub name: String,
    pub mod_path: Vec<String>,
    /// True for modules of other packages.
    pub is_external: bool,
}

/// The modules of the project, and the package being compiled.
#[derive(Debug)]
pub struct Root {
    pub current_package_name: String,
    pub modules: Vec<Module>,
}

/// No module has the path that was looked up.
#[derive(Clone, Copy, Debug, PartialEq, Eq, Structural)]
pub struct ModuleNotFound;

/// The namespace passed through type checking: the root, and where in it checking stands.
#[derive(Debug)]
pub struct Namespace {
    pub root: Root,
    /// Absolute path of the module being processed; `[package_name]` for the package's root
    /// module.
    pub current_mod_path: Vec<String>,
    /// True if the current package is a contract.
    pub is_contract_package: bool,
}

/// A path as a sequence of names.
pub open spec fn path_view(p: Seq<String>) -> Seq<Seq<char>> {
    p.map_values(|s: String| s@)
}

/// The module paths of the root, as sequences of names.
pub open spec fn module_paths(modules: Seq<Module>) -> Seq<Seq<Seq<char>>> {
    modules.map_values(|m: Module| path_view(m.mod_path@))
}

/// Some module has path `p`.
pub open spec fn has_module(modules: Seq<Module>, p: Seq<Seq<char>>) -> bool {
    exists|i: int| 0 <= i < modules.len() && path_view((#[trigger] modules[i]).mod_path@) == p
}

/// `a` is a prefix of `b`.
pub open spec fn is_prefix_of(a: Seq<Seq<char>>, b: Seq<Seq<char>>) -> bool {
    a.len() <= b.len() && b.take(a.len() as int) == a
}

fn same_path(a: &Vec<String>, b: &Vec<String>) -> (r: bool)
    ensures
        r == (path_view(a@) == path_view(b@)),
{
    if a.len() != b.len() {
        assert(path_view(a@).len() != path_view(b@).len());
        return false;
    }
    let mut i: usize = 0;
    while i < a.len()
        invariant
            i <= a@.len(),
            a@.len() == b@.len(),
            forall|j: int| 0 <= j < i ==> a@[j]@ == b@[j]@,
        decreases a@.len() - i,
    {
        if a[i] != b[i] {
            assert(path_view(a@)[i as int] != path_view(b@)[i as int]);
            return false;
        }
        i = i + 1;
    }
    assert(path_view(a@) =~= path_view(b@));
    true
}

fn clone_path(p: &Vec<String>) -> (r: Vec<String>)
    ensures
        path_view(r@) == path_view(p@),
{
    let mut out: Vec<String> = Vec::new();
    let mut i: usize = 0;
    while i < p.len()
        invariant
            i <= p@.len(),
            out@.len() == i,
            forall|j: int| 0 <= j < i ==> (#[trigger] out@[j])@ == p@[j]@,
        decreases p@.len() - i,
    {
        let s = p[i].clone();
        assert(s@ == p@[i as int]@);
        out.push(s);
        i = i + 1;
    }
    assert(path_view(out@) =~= path_view(p@));
    out
}

impl Root {
    /// Position of the module with path `p`, if there is one.
    pub fn find_module(&self, p: &Vec<String>) -> (r: Option<usize>)
        ensures
            r.is_some() <==> has_module(self.modules@, path_view(p@)),
            r.is_some() ==> r.unwrap() < self.modules@.len() && path_view(
                self.modules@[r.unwrap() as int].mod_path@,
            ) == path_view(p@),
    {
        let mut i: usize = 0;
        while i < self.modules.len()
            invariant
                i <= self.modules@.len(),
                forall|j: int|
                    0 <= j < i ==> path_view((#[trigger] self.modules@[j]).mod_path@) != path_view(
                        p@,
                    ),
            decreases self.modules@.len() - i,
        {
            if same_path(&self.modules[i].mod_path, p) {
                return Some(i);
            }
            i = i + 1;
        }
        None
    }
}

impl Namespace {
    /// The namespace is consistent: module paths are non-empty, end in the module's name and
    /// are distinct; the package's root module exists; every module of the package but its root
    /// has its parent; the current path is a module's path.
    pub open spec fn wf(&self) -> bool {
        let ms = self.root.modules@;
        let pkg = self.root.current_package_name@;
        &&& forall|i: int|
            0 <= i < ms.len() ==> (#[trigger] ms[i]).mod_path@.len() >= 1 && ms[i].name@
                == ms[i].mod_path@.last()@
        &&& forall|i: int, j: int|
            0 <= i < ms.len() && 0 <= j < ms.len() && i != j ==> path_view((#[trigger] ms[i]).mod_path@)
                != path_view((#[trigger] ms[j]).mod_path@)
        &&& has_module(ms, seq![pkg])
        &&& forall|i: int|
            0 <= i < ms.len() && (#[trigger] ms[i]).mod_path@.len() > 1 && ms[i].mod_path@[0]@
                == pkg ==> has_module(ms, path_view(ms[i].mod_path@).drop_last())
        &&& has_module(ms, path_view(self.current_mod_path@))
        &&& self.current_mod_path@.len() >= 1
        &&& self.current_mod_path@[0]@ == pkg
    }

    /// A namespace for the package `package_name`, positioned at its root module.
    pub fn new(package_name: String, contract_id: Option<String>) -> (r: Self)
        ensures
            r.wf(),
            r.root.current_package_name@ == package_name@,
            path_view(r.current_mod_path@) == seq![package_name@],
            r.root.modules@.len() == 1,
            r.is_contract_package == contract_id.is_some(),
    {
        let mut path: Vec<String> = Vec::new();
        path.push(package_name.clone());
        let root_module = Module { name: package_name.clone(), mod_path: path, is_external: false };
        let mut current: Vec<String> = Vec::new();
        current.push(package_name.clone());
        let mut modules: Vec<Module> = Vec::new();
        modules.push(root_module);
        let r = Namespace {
            root: Root { current_package_name: package_name, modules },
            current_mod_path: current,
            is_contract_package: contract_id.is_some(),
        };
        assert(path_view(r.current_mod_path@) =~= seq![package_name@]);
        assert(path_view(r.root.modules@[0].mod_path@) =~= seq![package_name@]);
        r
    }

    /// The module being processed.
    pub fn current_module(&self) -> (r: &Module)
        requires
            self.wf(),
        ensures
            exists|i: int| 0 <= i < self.root.modules@.len() && *r == self.root.modules@[i],
            path_view(r.mod_path@) == path_view(self.current_mod_path@),
    {
        let i = self.root.find_module(&self.current_mod_path).unwrap();
        &self.root.modules[i]
    }

    /// The module being processed, for changing it.
    pub fn current_module_mut(&mut self) -> (r: &mut Module)
        requires
            old(self).wf(),
        ensures
            exists|i: int|
                0 <= i < old(self).root.modules@.len() && *r == old(self).root.modules@[i]
                    && final(self).root.modules@ == old(self).root.modules@.update(i, *final(r)),
            path_view(r.mod_path@) == path_view(old(self).current_mod_path@),
            final(self).current_mod_path == old(self).current_mod_path,
            final(self).root.current_package_name == old(self).root.current_package_name,
            final(self).is_contract_package == old(self).is_contract_package,
    {
        let i = self.root.find_module(&self.current_mod_path).unwrap();
        &mut self.root.modules[i]
    }

    /// True if the module being processed has a submodule named `submod_name`.
    pub fn current_module_has_submodule(&self, submod_name: &String) -> (r: bool)
        ensures
            r == has_module(
                self.root.modules@,
                path_view(self.current_mod_path@).push(submod_name@),
            ),
    {
        let mut p = clone_path(&self.current_mod_path);
        p.push(submod_name.clone());
        assert(path_view(p@) =~= path_view(self.current_mod_path@).push(submod_name@));
        self.root.find_module(&p).is_some()
    }

    /// Name of the package being compiled.
    pub fn current_package_name(&self) -> (r: &String)
        ensures
            *r == self.root.current_package_name,
    {
        &self.root.current_package_name
    }

    /// The path of the module being processed.
    pub fn mod_path(&self) -> (r: &Vec<String>)
        ensures
            *r == self.current_mod_path,
    {
        &self.current_mod_path
    }

    /// The path of the module being processed, followed by `prefixes`.
    pub fn prepend_module_path(&self, prefixes: &Vec<String>) -> (r: Vec<String>)
        ensures
            path_view(r@) == path_view(self.current_mod_path@) + path_view(prefixes@),
    {
        let mut out = clone_path(&self.current_mod_path);
        let ghost start = out@;
        let mut i: usize = 0;
        while i < prefixes.len()
            invariant
                i <= prefixes@.len(),
                path_view(start) == path_view(self.current_mod_path@),
                out@ == start + prefixes@.take(i as int).map_values(|s: String| s),
                path_view(out@) == path_view(self.current_mod_path@) + path_view(
                    prefixes@.take(i as int),
                ),
            decreases prefixes@.len() - i,
        {
            let s = prefixes[i].clone();
            out.push(s);
            i = i + 1;
            assert(path_view(out@) =~= path_view(self.current_mod_path@) + path_view(
                prefixes@.take(i as int),
            ));
            assert(out@ =~= start + prefixes@.take(i as int).map_values(|s: String| s));
        }
        assert(prefixes@.take(i as int) == prefixes@);
        out
    }

    /// The root module of the package being compiled.
    pub fn current_package_root_module(&self) -> (r: &Module)
        requires
            self.wf(),
        ensures
            exists|i: int| 0 <= i < self.root.modules@.len() && *r == self.root.modules@[i],
            path_view(r.mod_path@) == seq![self.root.current_package_name@],
    {
        let mut p: Vec<String> = Vec::new();
        p.push(self.root.current_package_name.clone());
        assert(path_view(p@) =~= seq![self.root.current_package_name@]);
        let i = self.root.find_module(&p).unwrap();
        &self.root.modules[i]
    }

    /// The module with absolute path `path`, or `ModuleNotFound` where there is none.
    pub fn lookup_module_from_absolute_path(&self, path: &Vec<String>) -> (r: Result<
        &Module,
        ModuleNotFound,
    >)
        ensures
            r.is_ok() <==> has_module(self.root.modules@, path_view(path@)),
            r.is_ok() ==> path_view(r.unwrap().mod_path@) == path_view(path@) && exists|i: int|
                0 <= i < self.root.modules@.len() && *r.unwrap() == self.root.modules@[i],
    {
        match self.root.find_module(path) {
            Some(i) => Ok(&self.root.modules[i]),
            None => Err(ModuleNotFound),
        }
    }

    /// True if the module being processed lies under the module at `absolute_module_path`;
    /// when it is that module itself, `true_if_same` is returned.
    pub fn module_is_submodule_of(&self, absolute_module_path: &Vec<String>, true_if_same: bool) -> (r:
        bool)
        requires
            absolute_module_path@.len() >= 1,
        ensures
            r == (is_prefix_of(path_view(absolute_module_path@), path_view(self.current_mod_path@))
                && (absolute_module_path@.len() < self.current_mod_path@.len() || true_if_same)),
    {
        let ghost a = path_view(absolute_module_path@);
        let ghost c = path_view(self.current_mod_path@);
        if self.current_mod_path.len() < absolute_module_path.len() {
            return false;
        }
        let mut i: usize = 0;
        while i < absolute_module_path.len()
            invariant
                i <= absolute_module_path@.len() <= self.current_mod_path@.len(),
                a == path_view(absolute_module_path@),
                c == path_view(self.current_mod_path@),
                forall|j: int| 0 <= j < i ==> a[j] == c[j],
            decreases absolute_module_path@.len() - i,
        {
            if absolute_module_path[i] != self.current_mod_path[i] {
                assert(c.take(a.len() as int)[i as int] != a[i as int]);
                return false;
            }
            i = i + 1;
        }
        assert(c.take(a.len() as int) =~= a);
        if self.current_mod_path.len() == absolute_module_path.len() {
            true_if_same
        } else {
            true
        }
    }

    /// True if the module at `absolute_module_path` belongs to another package than the one
    /// being compiled.
    pub fn module_is_external(&self, absolute_module_path: &Vec<String>) -> (r: bool)
        requires
            absolute_module_path@.len() >= 1,
        ensures
            r == (self.root.current_package_name@ != absolute_module_path@[0]@),
    {
        self.root.current_package_name != absolute_module_path[0]
    }

    /// Enters the submodule `mod_name` of the module being processed, adding it first where
    /// it does not exist yet.
    pub fn push_new_submodule(&mut self, mod_name: String)
        requires
            old(self).wf(),
        ensures
            final(self).wf(),
            path_view(final(self).current_mod_path@) == path_view(old(self).current_mod_path@).push(
                mod_name@,
            ),
            has_module(old(self).root.modules@, path_view(final(self).current_mod_path@))
                ==> final(self).root.modules@ == old(self).root.modules@,
            !has_module(old(self).root.modules@, path_view(final(self).current_mod_path@))
                ==> final(self).root.modules@.drop_last() == old(self).root.modules@,
            final(self).root.current_package_name == old(self).root.current_package_name,
            final(self).is_contract_package == old(self).is_contract_package,
    {
        let mut p = clone_path(&self.current_mod_path);
        p.push(mod_name.clone());
        let ghost pv = path_view(old(self).current_mod_path@).push(mod_name@);
        assert(path_view(p@) =~= pv);
        let ghost ms0 = self.root.modules@;
        let ghost parent = path_view(self.current_mod_path@);
        match self.root.find_module(&p) {
            Some(_) => {},
            None => {
                let is_external = {
                    let i = self.root.find_module(&self.current_mod_path).unwrap();
                    self.root.modules[i].is_external
                };
                let path2 = clone_path(&p);
                self.root.modules.push(Module { name: mod_name, mod_path: path2, is_external });
                proof {
                    let ms = self.root.modules@;
                    let n = ms0.len() as int;
                    assert(ms[n].mod_path@.len() >= 1);
                    assert(path_view(ms[n].mod_path@).last() == mod_name@);
                    assert forall|i: int| 0 <= i < ms.len() implies (#[trigger] ms[i]).mod_path@.len()
                        >= 1 && ms[i].name@ == ms[i].mod_path@.last()@ by {
                        if i < n {
                            assert(ms[i] == ms0[i]);
                        } else {
                            assert(path_view(ms[i].mod_path@)[ms[i].mod_path@.len() - 1]
                                == ms[i].mod_path@.last()@);
                        }
                    }
                    assert(path_view(p@).drop_last() =~= parent);
                    assert forall|i: int|
                        0 <= i < ms.len() && (#[trigger] ms[i]).mod_path@.len() > 1
                            && ms[i].mod_path@[0]@ == self.root.current_package_name@ implies has_module(
                        ms,
                        path_view(ms[i].mod_path@).drop_last(),
                    ) by {
                        if i < n {
                            assert(ms[i] == ms0[i]);
                            let k = choose|k: int|
                                0 <= k < ms0.len() && path_view((#[trigger] ms0[k]).mod_path@)
                                    == path_view(ms0[i].mod_path@).drop_last();
                            assert(ms[k] == ms0[k]);
                        } else {
                            let k = choose|k: int|
                                0 <= k < ms0.len() && path_view((#[trigger] ms0[k]).mod_path@) == parent;
                            assert(ms[k] == ms0[k]);
                        }
                    }
                    assert forall|i: int, j: int|
                        0 <= i < ms.len() && 0 <= j < ms.len() && i != j implies path_view(
                        (#[trigger] ms[i]).mod_path@,
                    ) != path_view((#[trigger] ms[j]).mod_path@) by {
                        if i < n && j < n {
                            assert(ms[i] == ms0[i] && ms[j] == ms0[j]);
                        } else if i < n {
                            assert(ms[i] == ms0[i]);
                        } else {
                            assert(ms[j] == ms0[j]);
                        }
                    }
                    let k0 = choose|k: int|
                        0 <= k < ms0.len() && path_view((#[trigger] ms0[k]).mod_path@) == seq![
                            self.root.current_package_name@,
                        ];
                    assert(ms[k0] == ms0[k0]);
                    assert(ms.drop_last() =~= ms0);
                }
            },
        }
        self.current_mod_path = p;
        proof {
            let ms = self.root.modules@;
            if !has_module(ms, pv) {
                let n = ms0.len() as int;
                assert(path_view(ms[n].mod_path@) == pv);
            }
            assert(path_view(self.current_mod_path@)[0] == self.current_mod_path@[0]@);
            assert(parent[0] == old(self).current_mod_path@[0]@);
        }
    }

    /// Leaves the module being processed for its parent.
    pub fn pop_submodule(&mut self)
        ensures
            final(self).current_mod_path@ == if old(self).current_mod_path@.len() > 0 {
                old(self).current_mod_path@.drop_last()
            } else {
                old(self).current_mod_path@
            },
            old(self).wf() && old(self).current_mod_path@.len() > 1 ==> final(self).wf(),
            final(self).root == old(self).root,
            final(self).is_contract_package == old(self).is_contract_package,
    {
        let ghost c0 = self.current_mod_path@;
        self.current_mod_path.pop();
        proof {
            if c0.len() > 0 {
                assert(self.current_mod_path@ =~= c0.drop_last());
            }
            if old(self).wf() && c0.len() > 1 {
                let k = choose|k: int|
                    0 <= k < self.root.modules@.len() && path_view(
                        (#[trigger] self.root.modules@[k]).mod_path@,
                    ) == path_view(c0);
                assert(path_view(c0).drop_last() =~= path_view(self.current_mod_path@));
                assert(self.root.modules@[k].mod_path@[0]@ == path_view(c0)[0]);
            }
        }
    }
}

} // verus!
