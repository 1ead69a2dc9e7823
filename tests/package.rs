use codemaker::{Assignment, Module, Package, Statement};

fn paths(p: &Package) -> Vec<String> {
    p.files().iter().map(|f| f.path.join("/")).collect()
}

#[test]
fn module_path_has_extension() {
    assert_eq!(Module::new("status_codes").path(), "status_codes.py");
}

#[test]
fn statement_added_to_package_goes_to_root_module() {
    let mut p = Package::new("pkg");
    p.add_module(Module::new("sub"));
    p.add_package(Package::new("inner"));
    p.add_statement(Statement::Assign(Assignment::new("X", "1")));
    p.extend(vec![Statement::new_raw("y = 2")]);
    assert_eq!(p.root_module.statements.len(), 2);
    assert!(p.submodules[0].statements.is_empty());
    assert!(p.subpackages[0].root_module.statements.is_empty());
    let files = p.files();
    assert_eq!(files[0].render(), "X = 1\ny = 2\n");
}

#[test]
fn files_are_listed_in_pre_order() {
    let mut inner = Package::new("inner");
    inner.add_module(Module::new("c"));
    let mut p = Package::new("outer");
    p.add_module(Module::new("a"));
    p.add_package(inner);
    p.add_module(Module::new("b"));
    p.add_package(Package::new("empty"));
    assert_eq!(
        paths(&p),
        vec![
            "outer/__init__.py",
            "outer/a.py",
            "outer/b.py",
            "outer/inner/__init__.py",
            "outer/inner/c.py",
            "outer/empty/__init__.py",
        ]
    );
}

#[test]
fn nested_module_path_is_prefix_closed() {
    // The module is added to the subpackage before the subpackage is added.
    let mut inner = Package::new("inner");
    inner.add_module(Module::new("m"));
    let mut outer = Package::new("outer");
    outer.add_package(inner);
    assert!(paths(&outer).contains(&"outer/inner/m.py".to_string()));

    // The subpackage is built first, its module last.
    let mut inner = Package::new("inner");
    let mut outer = Package::new("outer");
    inner.add_module(Module::new("m"));
    outer.add_package(inner);
    let mut top = Package::new("top");
    top.add_package(outer);
    assert!(paths(&top).contains(&"top/outer/inner/m.py".to_string()));
}

#[test]
fn adding_twice_appends_twice() {
    let mut p = Package::new("p");
    p.add_module(Module::new("a"));
    p.add_module(Module::new("a"));
    assert_eq!(paths(&p), vec!["p/__init__.py", "p/a.py", "p/a.py"]);
}

#[test]
fn module_renders_statements_in_order() {
    let m = Module::new("m")
        .push(Statement::new_raw("a = 1"))
        .extend(vec![Statement::new_raw("b = 2"), Statement::new_raw("c = 3")]);
    assert_eq!(m.render(), "a = 1\nb = 2\nc = 3\n");
    let mut m2 = Module::new("m");
    m2.add_statement(Statement::new_raw("a = 1"));
    let mut out = String::from("# head\n");
    m2.write_into(&mut out);
    assert_eq!(out, "# head\na = 1\n");
    assert_eq!(Module::new("empty").render(), "");
}

#[test]
fn rendering_twice_is_identical() {
    let mut p = Package::new("p");
    p.add_statement(Statement::Assign(Assignment::new("A", "1")));
    let first: Vec<String> = p.files().iter().map(|f| f.render()).collect();
    let second: Vec<String> = p.files().iter().map(|f| f.render()).collect();
    assert_eq!(first, second);
    let mut buf = String::new();
    p.files()[0].write_into(&mut buf);
    assert_eq!(buf, first[0]);
}
