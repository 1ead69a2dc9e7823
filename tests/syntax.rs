use codemaker::{Assignment, Block, Expression, FunctionDefinition, IfElse, Return, Statement};

#[test]
fn assignment_renders_target_and_value() {
    let s = Statement::Assign(Assignment::new("NOT_FOUND", "404"));
    assert_eq!(s.render(), "NOT_FOUND = 404\n");
}

#[test]
fn raw_line_renders_verbatim() {
    assert_eq!(Statement::new_raw("import os").render(), "import os\n");
}

#[test]
fn empty_function_renders_pass_one_level_deeper() {
    let f = FunctionDefinition::new("noop").add_arg("a").add_arg("b");
    let text = Statement::FuncDef(f).render();
    assert_eq!(text, "def noop(a, b):\n    pass\n");
    let lines: Vec<&str> = text.lines().collect();
    assert_eq!(lines.len(), 2);
    assert_eq!(lines[1].trim(), "pass");
}

#[test]
fn function_without_args_and_with_body() {
    let f = FunctionDefinition::new("f")
        .push(Statement::new_raw("x = 1"))
        .push(Statement::Return(Return::new(Expression::new_variable("x"))));
    assert_eq!(Statement::FuncDef(f).render(), "def f():\n    x = 1\n    return x\n");
}

#[test]
fn add_args_appends_in_order() {
    let f = FunctionDefinition::new("g").add_arg("a").add_args(vec!["b".to_string(), "c".to_string()]);
    assert_eq!(Statement::FuncDef(f).render(), "def g(a, b, c):\n    pass\n");
}

#[test]
fn if_with_empty_else_has_no_else_clause() {
    let cond = Expression::new_equals(Expression::new_variable("code"), Expression::new_number(200));
    let ie = IfElse::new(cond).with_body_if(|b| b.push(Statement::new_raw("return 1")));
    let text = Statement::IfElse(ie).render();
    assert_eq!(text, "if code == 200:\n    return 1\n");
    assert!(!text.contains("else"));
}

#[test]
fn if_with_else_renders_else_at_if_indent() {
    let cond = Expression::new_equals(Expression::new_variable("x"), Expression::new_string("a"));
    let ie = IfElse::new(cond)
        .with_body_if(|b| b.push(Statement::new_raw("y = 1")))
        .with_body_else(|b| b.extend(vec![Statement::new_raw("y = 2"), Statement::new_raw("z = 3")]));
    let f = FunctionDefinition::new("h").push(Statement::IfElse(ie));
    assert_eq!(
        Statement::FuncDef(f).render(),
        "def h():\n    if x == \"a\":\n        y = 1\n    else:\n        y = 2\n        z = 3\n"
    );
}

#[test]
fn empty_if_block_renders_pass() {
    let ie = IfElse::new(Expression::new_variable("flag"));
    assert_eq!(Statement::IfElse(ie).render(), "if flag:\n    pass\n");
}

#[test]
fn expressions_render() {
    assert_eq!(Expression::new_number(0).render(), "0");
    assert_eq!(Expression::new_number(65535).render(), "65535");
    assert_eq!(Expression::new_number(404).render(), "404");
    assert_eq!(Expression::new_string("Not Found").render(), "\"Not Found\"");
    assert_eq!(Expression::new_literal("None").render(), "None");
    let e = Expression::new_equals(Expression::new_variable("a"), Expression::new_literal("'b'"));
    assert_eq!(e.render(), "a == 'b'");
}

#[test]
fn block_builders() {
    let b = Block::new();
    assert!(b.is_empty());
    let b = b.push(Statement::new_raw("x"));
    assert!(!b.is_empty());
    assert_eq!(b.body.len(), 1);
}

#[test]
fn statements_convert_from_their_parts() {
    let s: Statement = Assignment::new("A", "1").into();
    assert_eq!(s.render(), "A = 1\n");
    let s: Statement = Return::new(Expression::new_number(3)).into();
    assert_eq!(s.render(), "return 3\n");
    let s: Statement = FunctionDefinition::new("f").into();
    assert_eq!(s.render(), "def f():\n    pass\n");
    let s: Statement = IfElse::new(Expression::new_variable("c")).into();
    assert_eq!(s.render(), "if c:\n    pass\n");
}
