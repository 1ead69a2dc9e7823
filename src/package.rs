//! Modules and packages, and the flattening of a package tree into files.
use vstd::prelude::*;
use crate::syntax::{Statement, lines_text, stmts_lines, texts};

verus! {

/// A Python module: one file holding a sequence of statements.
#[derive(Debug)]
pub struct Module {
    pub name: String,
    pub statements: Vec<Statement>,
}

/// A Python package: a directory with a root module (`__init__.py`), its
/// submodules and its subpackages, each list in insertion order.
#[derive(Debug)]
pub struct Package {
    pub name: String,
    pub root_module: Module,
    pub submodules: Vec<Module>,
    pub subpackages: Vec<Package>,
}

/// One file of a package tree: its path, as components relative to the
/// output directory, and the module whose text it holds.
pub struct OutputFile<'a> {
    pub path: Vec<String>,
    pub module: &'a Module,
}

/// The file name of a module: its name with the extension `.py`.
pub open spec fn module_file_name(m: Module) -> Seq<char> {
    m.name@ + seq!['.', 'p', 'y']
}

/// The full text of a module: its statements at the outermost indentation.
pub open spec fn module_text(m: Module) -> Seq<char> {
    lines_text(stmts_lines(m.statements@, Seq::empty()))
}

/// The files of the modules `ms`, all in the directory `dir`.
pub open spec fn modules_files(ms: Seq<Module>, dir: Seq<Seq<char>>) -> Seq<(Seq<Seq<char>>, Module)> {
    ms.map_values(|m: Module| (dir.push(module_file_name(m)), m))
}

/// The files of a package whose parent directory is `parent`, in pre-order:
/// the root module, the submodules in order, then each subpackage's files.
pub open spec fn package_files(p: Package, parent: Seq<Seq<char>>) -> Seq<(Seq<Seq<char>>, Module)>
    decreases p, 1nat,
{
    let dir = parent.push(p.name@);
    seq![(dir.push(module_file_name(p.root_module)), p.root_module)] + modules_files(
        p.submodules@,
        dir,
    ) + packages_files(p.subpackages@, dir)
}

/// The files of each package of `ps` in order, all with the parent directory `dir`.
pub open spec fn packages_files(ps: Seq<Package>, dir: Seq<Seq<char>>) -> Seq<
    (Seq<Seq<char>>, Module),
>
    decreases ps, 0nat,
{
    if ps.len() == 0 {
        Seq::empty()
    } else {
        packages_files(ps.subrange(0, ps.len() - 1), dir) + package_files(ps[ps.len() - 1], dir)
    }
}

/// What a list of output files stands for: resolved paths and modules.
pub open spec fn files_view(fs: Seq<OutputFile>) -> Seq<(Seq<Seq<char>>, Module)> {
    fs.map_values(|f: OutputFile| (texts(f.path@), *f.module))
}

fn copy_path(p: &Vec<String>) -> (r: Vec<String>)
    ensures
        texts(r@) == texts(p@),
{
    let mut r: Vec<String> = Vec::new();
    let mut i: usize = 0;
    while i < p.len()
        invariant
            i <= p.len(),
            texts(r@) == texts(p@.subrange(0, i as int)),
        decreases p.len() - i,
    {
        let c = p[i].clone();
        assert(c@ == p@[i as int]@);
        let ghost before = r@;
        r.push(c);
        assert(texts(r@) =~= texts(before).push(c@));
        assert(texts(p@.subrange(0, i as int + 1)) =~= texts(p@.subrange(0, i as int)).push(c@));
        i = i + 1;
    }
    assert(p@.subrange(0, p.len() as int) =~= p@);
    r
}

fn with_component(p: &Vec<String>, c: String) -> (r: Vec<String>)
    ensures
        texts(r@) == texts(p@).push(c@),
{
    let mut r = copy_path(p);
    r.push(c);
    assert(texts(r@) =~= texts(p@).push(c@));
    r
}

impl Module {
    /// An empty module named `name` (its file is `name.py`).
    pub fn new(name: &str) -> (r: Module)
        ensures
            r.name@ == name@,
            r.statements@.len() == 0,
    {
        Module { name: name.to_owned(), statements: Vec::new() }
    }

    /// The module's file name, `name.py`.
    pub fn path(&self) -> (r: String)
        ensures
            r@ == module_file_name(*self),
    {
        let mut r = self.name.clone();
        proof {
            reveal_strlit(".py");
        }
        r.append(".py");
        assert(r@ =~= module_file_name(*self));
        r
    }

    /// Appends the full text of the module.
    pub fn write_into(&self, out: &mut String)
        ensures
            final(out)@ == old(out)@ + module_text(*self),
    {
        let pad = String::new();
        crate::syntax::write_stmts(&self.statements, out, pad.as_str());
    }

    /// The full text of the module.
    pub fn render(&self) -> (r: String)
        ensures
            r@ == module_text(*self),
    {
        let mut out = String::new();
        self.write_into(&mut out);
        assert(out@ =~= module_text(*self));
        out
    }

    /// Appends one statement.
    pub fn add_statement(&mut self, stmt: Statement)
        ensures
            final(self).name == old(self).name,
            final(self).statements@ == old(self).statements@.push(stmt),
    {
        self.statements.push(stmt);
    }

    /// Appends one statement, fluently.
    pub fn push(self, stmt: Statement) -> (r: Module)
        ensures
            r.name == self.name,
            r.statements@ == self.statements@.push(stmt),
    {
        let mut me = self;
        me.statements.push(stmt);
        me
    }

    /// Appends statements in order, fluently.
    pub fn extend(self, stmts: Vec<Statement>) -> (r: Module)
        ensures
            r.name == self.name,
            r.statements@ == self.statements@ + stmts@,
    {
        let mut me = self;
        let mut stmts = stmts;
        me.statements.append(&mut stmts);
        me
    }
}

impl<'a> OutputFile<'a> {
    /// The full text of the file.
    pub fn render(&self) -> (r: String)
        ensures
            r@ == module_text(*self.module),
    {
        self.module.render()
    }

    /// Appends the full text of the file.
    pub fn write_into(&self, out: &mut String)
        ensures
            final(out)@ == old(out)@ + module_text(*self.module),
    {
        self.module.write_into(out)
    }
}

proof fn lemma_packages_files_step(ps: Seq<Package>, i: int, dir: Seq<Seq<char>>)
    requires
        0 <= i < ps.len(),
    ensures
        packages_files(ps.subrange(0, i + 1), dir) == packages_files(ps.subrange(0, i), dir)
            + package_files(ps[i], dir),
{
    let c = ps.subrange(0, i + 1);
    assert(c.subrange(0, c.len() - 1) =~= ps.subrange(0, i));
    assert(c[c.len() - 1] == ps[i]);
}

/// Appends the files of each package of `ps`, in order, under the directory `dir`.
fn collect_packages<'a>(ps: &'a Vec<Package>, dir: &Vec<String>, out: &mut Vec<OutputFile<'a>>)
    ensures
        files_view(final(out)@) == files_view(old(out)@) + packages_files(ps@, texts(dir@)),
    decreases ps@, 0nat,
{
    let ghost start = files_view(out@);
    let mut i: usize = 0;
    assert(ps@.subrange(0, 0) =~= Seq::<Package>::empty());
    assert(files_view(out@) =~= start + packages_files(ps@.subrange(0, 0), texts(dir@)));
    while i < ps.len()
        invariant
            i <= ps.len(),
            files_view(out@) == start + packages_files(ps@.subrange(0, i as int), texts(dir@)),
        decreases ps.len() - i,
    {
        assert(decreases_to!(ps@ => ps@[i as int]));
        ps[i].collect_files(dir, out);
        proof {
            lemma_packages_files_step(ps@, i as int, texts(dir@));
        }
        assert(files_view(out@) =~= start + packages_files(ps@.subrange(0, i as int + 1), texts(dir@)));
        i = i + 1;
    }
    assert(ps@.subrange(0, ps.len() as int) =~= ps@);
}

impl Package {
    /// An empty package named `name`, whose root module is `__init__`.
    pub fn new(name: &str) -> (r: Package)
        ensures
            r.name@ == name@,
            r.root_module.name@ == "__init__"@,
            r.root_module.statements@.len() == 0,
            r.submodules@.len() == 0,
            r.subpackages@.len() == 0,
    {
        Package {
            name: name.to_owned(),
            root_module: Module::new("__init__"),
            submodules: Vec::new(),
            subpackages: Vec::new(),
        }
    }

    /// Adds a statement to the package: it goes to the root module.
    pub fn add_statement(&mut self, stmt: Statement)
        ensures
            final(self).name == old(self).name,
            final(self).root_module.name == old(self).root_module.name,
            final(self).root_module.statements@ == old(self).root_module.statements@.push(stmt),
            final(self).submodules == old(self).submodules,
            final(self).subpackages == old(self).subpackages,
    {
        self.root_module.statements.push(stmt);
    }

    /// Adds statements to the package, in order: they go to the root module.
    pub fn extend(&mut self, stmts: Vec<Statement>)
        ensures
            final(self).name == old(self).name,
            final(self).root_module.name == old(self).root_module.name,
            final(self).root_module.statements@ == old(self).root_module.statements@ + stmts@,
            final(self).submodules == old(self).submodules,
            final(self).subpackages == old(self).subpackages,
    {
        let mut stmts = stmts;
        self.root_module.statements.append(&mut stmts);
    }

    /// Adds a submodule; its file lies in this package's directory.
    pub fn add_module(&mut self, m: Module)
        ensures
            final(self).name == old(self).name,
            final(self).root_module == old(self).root_module,
            final(self).submodules@ == old(self).submodules@.push(m),
            final(self).subpackages == old(self).subpackages,
    {
        self.submodules.push(m);
    }

    /// Adds a subpackage; its directory lies in this package's directory.
    pub fn add_package(&mut self, p: Package)
        ensures
            final(self).name == old(self).name,
            final(self).root_module == old(self).root_module,
            final(self).submodules == old(self).submodules,
            final(self).subpackages@ == old(self).subpackages@.push(p),
    {
        self.subpackages.push(p);
    }

    /// Appends the files of this package, whose parent directory is `parent`.
    fn collect_files<'a>(&'a self, parent: &Vec<String>, out: &mut Vec<OutputFile<'a>>)
        ensures
            files_view(final(out)@) == files_view(old(out)@) + package_files(*self, texts(parent@)),
        decreases self, 1nat,
    {
        let ghost start = files_view(out@);
        let dir = with_component(parent, self.name.clone());
        let root_path = with_component(&dir, self.root_module.path());
        out.push(OutputFile { path: root_path, module: &self.root_module });
        let ghost first = seq![(texts(dir@).push(module_file_name(self.root_module)), self.root_module)];
        assert(files_view(out@) =~= start + first);
        let mut i: usize = 0;
        while i < self.submodules.len()
            invariant
                i <= self.submodules.len(),
                files_view(out@) == start + first + modules_files(
                    self.submodules@.subrange(0, i as int),
                    texts(dir@),
                ),
            decreases self.submodules.len() - i,
        {
            let m = &self.submodules[i];
            let path = with_component(&dir, m.path());
            let ghost before = out@;
            let f = OutputFile { path, module: m };
            assert(texts(f.path@) == texts(dir@).push(module_file_name(*m)));
            out.push(f);
            assert(files_view(out@) =~= files_view(before).push((texts(f.path@), *m)));
            assert(modules_files(self.submodules@.subrange(0, i as int + 1), texts(dir@)) =~= modules_files(
                self.submodules@.subrange(0, i as int),
                texts(dir@),
            ).push((texts(dir@).push(module_file_name(*m)), *m)));
            assert(files_view(out@) =~= start + first + modules_files(
                self.submodules@.subrange(0, i as int + 1),
                texts(dir@),
            ));
            i = i + 1;
        }
        assert(self.submodules@.subrange(0, self.submodules.len() as int) =~= self.submodules@);
        let ghost mid = files_view(out@);
        collect_packages(&self.subpackages, &dir, out);
        assert(files_view(out@) =~= start + package_files(*self, texts(parent@)));
    }

    /// The files of the package tree, in pre-order: the root module, the
    /// submodules in insertion order, then each subpackage's files in turn.
    /// Each path starts with the directory of every enclosing package.
    pub fn files(&self) -> (r: Vec<OutputFile<'_>>)
        ensures
            files_view(r@) == package_files(*self, Seq::empty()),
    {
        let mut out: Vec<OutputFile<'_>> = Vec::new();
        let root: Vec<String> = Vec::new();
        assert(texts(root@) =~= Seq::<Seq<char>>::empty());
        self.collect_files(&root, &mut out);
        assert(files_view(out@) =~= package_files(*self, Seq::empty()));
        out
    }
}

proof fn lemma_packages_files_contains(
    ps: Seq<Package>,
    dir: Seq<Seq<char>>,
    j: int,
    x: (Seq<Seq<char>>, Module),
)
    requires
        0 <= j < ps.len(),
        package_files(ps[j], dir).contains(x),
    ensures
        packages_files(ps, dir).contains(x),
    decreases ps.len(),
{
    let n = ps.len();
    let front = packages_files(ps.subrange(0, n - 1), dir);
    let last = package_files(ps[n - 1], dir);
    assert(packages_files(ps, dir) == front + last);
    if j == n - 1 {
        let k = choose|k: int| 0 <= k < last.len() && last[k] == x;
        assert((front + last)[front.len() + k] == x);
    } else {
        assert(ps.subrange(0, n - 1)[j] == ps[j]);
        lemma_packages_files_contains(ps.subrange(0, n - 1), dir, j, x);
        let k = choose|k: int| 0 <= k < front.len() && front[k] == x;
        assert((front + last)[k] == x);
    }
}

/// Path prefix closure: a module of a subpackage of a package `p` is listed
/// among the files of `p` at the path made of `p`'s directory, the
/// subpackage's directory and the module's file name, however the tree was built.
pub proof fn lemma_nested_module_path(p: Package, j: int, k: int)
    requires
        0 <= j < p.subpackages@.len(),
        0 <= k < p.subpackages@[j].submodules@.len(),
    ensures
        package_files(p, Seq::empty()).contains(
            (
                seq![
                    p.name@,
                    p.subpackages@[j].name@,
                    module_file_name(p.subpackages@[j].submodules@[k]),
                ],
                p.subpackages@[j].submodules@[k],
            ),
        ),
{
    let q = p.subpackages@[j];
    let m = q.submodules@[k];
    let dir = Seq::<Seq<char>>::empty().push(p.name@);
    let qdir = dir.push(q.name@);
    let x = (seq![p.name@, q.name@, module_file_name(m)], m);
    let qfiles = package_files(q, dir);
    let qhead = seq![(qdir.push(module_file_name(q.root_module)), q.root_module)];
    let qmods = modules_files(q.submodules@, qdir);
    assert(qdir.push(module_file_name(m)) =~= x.0);
    assert(qmods[k] == x);
    assert(qfiles == qhead + qmods + packages_files(q.subpackages@, qdir));
    assert(qfiles[1 + k] == x);
    lemma_packages_files_contains(p.subpackages@, dir, j, x);
    let pfiles = package_files(p, Seq::empty());
    let front = seq![(dir.push(module_file_name(p.root_module)), p.root_module)] + modules_files(
        p.submodules@,
        dir,
    );
    let rest = packages_files(p.subpackages@, dir);
    assert(pfiles == front + rest);
    let i = choose|i: int| 0 <= i < rest.len() && rest[i] == x;
    assert(pfiles[front.len() + i] == x);
}

/// Adding statements to a package touches its root module alone: the
/// package keeps as many files, the root module's file keeps its path, and
/// every other file (submodules and subpackages, at any depth) is unchanged.
pub proof fn lemma_statements_only_touch_root(before: Package, after: Package, parent: Seq<Seq<char>>)
    requires
        after.name == before.name,
        after.root_module.name == before.root_module.name,
        after.submodules == before.submodules,
        after.subpackages == before.subpackages,
    ensures
        package_files(after, parent).len() == package_files(before, parent).len(),
        package_files(after, parent)[0].0 == package_files(before, parent)[0].0,
        package_files(after, parent)[0].1 == after.root_module,
        forall|k: int|
            1 <= k < package_files(after, parent).len() ==> package_files(after, parent)[k]
                == package_files(before, parent)[k],
{
    let dir = parent.push(after.name@);
    let tail = modules_files(after.submodules@, dir) + packages_files(after.subpackages@, dir);
    let a = package_files(after, parent);
    let b = package_files(before, parent);
    assert(a =~= seq![(dir.push(module_file_name(after.root_module)), after.root_module)] + tail);
    assert(b =~= seq![(dir.push(module_file_name(before.root_module)), before.root_module)] + tail);
    assert(module_file_name(after.root_module) == module_file_name(before.root_module));
}

/// The files `fs` with `prefix` put in front of each path.
pub open spec fn relocated(fs: Seq<(Seq<Seq<char>>, Module)>, prefix: Seq<Seq<char>>) -> Seq<
    (Seq<Seq<char>>, Module),
> {
    fs.map_values(|f: (Seq<Seq<char>>, Module)| (prefix + f.0, f.1))
}

proof fn lemma_relocated_concat(
    a: Seq<(Seq<Seq<char>>, Module)>,
    b: Seq<(Seq<Seq<char>>, Module)>,
    prefix: Seq<Seq<char>>,
)
    ensures
        relocated(a + b, prefix) == relocated(a, prefix) + relocated(b, prefix),
{
    assert(relocated(a + b, prefix) =~= relocated(a, prefix) + relocated(b, prefix));
}

/// A package's files under the parent directory `prefix + parent` are its
/// files under `parent` with `prefix` put in front of each path.
pub proof fn lemma_package_files_relocate(p: Package, parent: Seq<Seq<char>>, prefix: Seq<Seq<char>>)
    ensures
        package_files(p, prefix + parent) == relocated(package_files(p, parent), prefix),
    decreases p, 1nat,
{
    let dir = parent.push(p.name@);
    assert((prefix + parent).push(p.name@) =~= prefix + dir);
    let head = seq![(dir.push(module_file_name(p.root_module)), p.root_module)];
    assert((prefix + dir).push(module_file_name(p.root_module)) =~= prefix + dir.push(
        module_file_name(p.root_module),
    ));
    assert(seq![((prefix + dir).push(module_file_name(p.root_module)), p.root_module)]
        =~= relocated(head, prefix));
    let mods = modules_files(p.submodules@, dir);
    assert forall|k: int| 0 <= k < p.submodules@.len() implies (prefix + dir).push(
        module_file_name(#[trigger] p.submodules@[k]),
    ) == prefix + dir.push(module_file_name(p.submodules@[k])) by {
        assert((prefix + dir).push(module_file_name(p.submodules@[k])) =~= prefix + dir.push(
            module_file_name(p.submodules@[k]),
        ));
    }
    assert(modules_files(p.submodules@, prefix + dir) =~= relocated(mods, prefix));
    lemma_packages_files_relocate(p.subpackages@, dir, prefix);
    let subs = packages_files(p.subpackages@, dir);
    lemma_relocated_concat(head, mods, prefix);
    lemma_relocated_concat(head + mods, subs, prefix);
}

proof fn lemma_packages_files_relocate(ps: Seq<Package>, dir: Seq<Seq<char>>, prefix: Seq<Seq<char>>)
    ensures
        packages_files(ps, prefix + dir) == relocated(packages_files(ps, dir), prefix),
    decreases ps, 0nat,
{
    if ps.len() > 0 {
        let front = ps.subrange(0, ps.len() - 1);
        lemma_packages_files_relocate(front, dir, prefix);
        lemma_package_files_relocate(ps[ps.len() - 1], dir, prefix);
        lemma_relocated_concat(
            packages_files(front, dir),
            package_files(ps[ps.len() - 1], dir),
            prefix,
        );
    } else {
        assert(relocated(Seq::empty(), prefix) =~= Seq::<(Seq<Seq<char>>, Module)>::empty());
    }
}

/// Path prefix closure at any depth: every file of a subpackage `q` of `p`,
/// whatever `q` holds and whenever it was added, is listed among the files
/// of `p` at `p`'s directory followed by the path it has among `q`'s own files.
pub proof fn lemma_subpackage_files_prefixed(p: Package, j: int)
    requires
        0 <= j < p.subpackages@.len(),
    ensures
        forall|k: int|
            0 <= k < package_files(p.subpackages@[j], Seq::empty()).len() ==> package_files(
                p,
                Seq::empty(),
            ).contains(
                (
                    seq![p.name@] + #[trigger] package_files(p.subpackages@[j], Seq::empty())[k].0,
                    package_files(p.subpackages@[j], Seq::empty())[k].1,
                ),
            ),
{
    let q = p.subpackages@[j];
    let dir = Seq::<Seq<char>>::empty().push(p.name@);
    assert(seq![p.name@] + Seq::<Seq<char>>::empty() =~= dir);
    lemma_package_files_relocate(q, Seq::empty(), seq![p.name@]);
    let own = package_files(q, Seq::empty());
    let placed = package_files(q, dir);
    assert(placed == relocated(own, seq![p.name@]));
    let pfiles = package_files(p, Seq::empty());
    let front = seq![(dir.push(module_file_name(p.root_module)), p.root_module)] + modules_files(
        p.submodules@,
        dir,
    );
    let rest = packages_files(p.subpackages@, dir);
    assert(pfiles == front + rest);
    assert forall|k: int| 0 <= k < own.len() implies pfiles.contains(
        (seq![p.name@] + #[trigger] own[k].0, own[k].1),
    ) by {
        let x = (seq![p.name@] + own[k].0, own[k].1);
        assert(placed[k] == x);
        lemma_packages_files_contains(p.subpackages@, dir, j, x);
        let i = choose|i: int| 0 <= i < rest.len() && rest[i] == x;
        assert(pfiles[front.len() + i] == x);
    }
}

} // verus!
