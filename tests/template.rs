use codemaker::{
    Expression, Statement, StatusCodes, StatusModuleMaker, Substitution, Template, TemplateErrorKind,
    TokenKind,
};

fn clause_template() -> Template {
    Template::compile("if code == $(code):{\n    return $(status)\n}").unwrap()
}

#[test]
fn statement_template_with_single_points() {
    let t = clause_template();
    let s = t
        .build(vec![
            Substitution::Value(Expression::new_number(404)),
            Substitution::Value(Expression::new_string("Not Found")),
        ])
        .unwrap();
    assert_eq!(s.render(), "if code == 404:\n    return \"Not Found\"\n");
    // A compiled template builds again and again.
    let s = t
        .build(vec![
            Substitution::Value(Expression::new_number(200)),
            Substitution::Value(Expression::new_string("OK")),
        ])
        .unwrap();
    assert_eq!(s.render(), "if code == 200:\n    return \"OK\"\n");
}

#[test]
fn function_template_splices_multi_point() {
    let f = Template::compile_function("def status_for_code(code):{ $(clauses)* return \"\" }").unwrap();
    let clauses: Vec<Statement> = [(100u16, "Continue"), (200, "OK")]
        .iter()
        .map(|(c, n)| {
            clause_template()
                .build(vec![
                    Substitution::Value(Expression::new_number(*c)),
                    Substitution::Value(Expression::new_string(n)),
                ])
                .unwrap()
        })
        .collect();
    let fd = f.build_function(vec![Substitution::Statements(clauses)]).unwrap();
    assert_eq!(fd.body.len(), 3);
    assert_eq!(
        Statement::FuncDef(fd).render(),
        "def status_for_code(code):\n    if code == 100:\n        return \"Continue\"\n    if code == 200:\n        return \"OK\"\n    return \"\"\n"
    );
}

#[test]
fn template_matches_hand_written_rules() {
    let codes = StatusCodes {
        codes: vec![(100, "Continue".to_string()), (404, "Not Found".to_string())],
    };
    let maker = StatusModuleMaker::new("status_codes");
    let by_hand = Statement::FuncDef(maker.lookup_function(&codes)).render();
    let clauses: Vec<Statement> = codes
        .codes
        .iter()
        .map(|(c, n)| {
            clause_template()
                .build(vec![
                    Substitution::Value(Expression::new_number(*c)),
                    Substitution::Value(Expression::new_string(n)),
                ])
                .unwrap()
        })
        .collect();
    let f = Template::compile_function("def status_for_code(code):{ $(Self::make_from_iter(&input.codes))* return \"\" }")
        .unwrap();
    let by_template = Statement::FuncDef(f.build_function(vec![Substitution::Statements(clauses)]).unwrap()).render();
    assert_eq!(by_hand, by_template);
}

#[test]
fn empty_multi_point_leaves_body_empty() {
    let f = Template::compile_function("def f(a, b,):{ $(nothing)* }").unwrap();
    let fd = f.build_function(vec![Substitution::Statements(vec![])]).unwrap();
    assert_eq!(Statement::FuncDef(fd).render(), "def f(a, b):\n    pass\n");
}

#[test]
fn single_point_in_body_takes_one_statement() {
    let t = Template::compile("def f():{ $(stmt) return 0 }").unwrap();
    let s = t.build(vec![Substitution::Statement(Statement::new_raw("x = 1"))]).unwrap();
    assert_eq!(s.render(), "def f():\n    x = 1\n    return 0\n");
}

#[test]
fn if_else_template() {
    let t = Template::compile("if x == 1:{ return \"one\" } else:{ return $(other) }").unwrap();
    let s = t.build(vec![Substitution::Value(Expression::new_variable("y"))]).unwrap();
    assert_eq!(s.render(), "if x == 1:\n    return \"one\"\nelse:\n    return y\n");
}

#[test]
fn nested_templates() {
    let t = Template::compile("def outer(a):{ def inner():{ if a == \"z\":{ $(body)* } } return 1 }").unwrap();
    let s = t
        .build(vec![Substitution::Statements(vec![Statement::new_raw("pass_through()")])])
        .unwrap();
    assert_eq!(
        s.render(),
        "def outer(a):\n    def inner():\n        if a == \"z\":\n            pass_through()\n    return 1\n"
    );
}

#[test]
fn substitution_mismatches_are_reported() {
    let t = clause_template();
    let e = t.build(vec![Substitution::Value(Expression::new_number(1))]).err().unwrap();
    assert_eq!(e.kind, TemplateErrorKind::SubstitutionMismatch);
    let e = t
        .build(vec![
            Substitution::Value(Expression::new_number(1)),
            Substitution::Statement(Statement::new_raw("x")),
        ])
        .err()
        .unwrap();
    assert_eq!(e.kind, TemplateErrorKind::SubstitutionMismatch);
    let e = t
        .build(vec![
            Substitution::Value(Expression::new_number(1)),
            Substitution::Value(Expression::new_number(2)),
            Substitution::Value(Expression::new_number(3)),
        ])
        .err()
        .unwrap();
    assert_eq!(e.kind, TemplateErrorKind::TooManySubstitutions);
}

#[test]
fn malformed_templates_are_reported_with_position() {
    let e = Template::compile("while x:{ }").err().unwrap();
    assert_eq!(e.kind, TemplateErrorKind::UnknownStatement);
    assert_eq!(e.pos, 0);

    let e = Template::compile("def f(:{ }").err().unwrap();
    assert_eq!(e.kind, TemplateErrorKind::Expected(TokenKind::Close));
    assert_eq!(e.pos, 6);

    let e = Template::compile("def f():{ return 1").err().unwrap();
    assert_eq!(e.kind, TemplateErrorKind::UnexpectedEnd);
    assert_eq!(e.pos, 18);

    let e = Template::compile("return $x").err().unwrap();
    assert_eq!(e.kind, TemplateErrorKind::MalformedSubstitution);
    assert_eq!(e.pos, 7);

    let e = Template::compile("return $(oops").err().unwrap();
    assert_eq!(e.kind, TemplateErrorKind::MalformedSubstitution);

    let e = Template::compile("return \"open").err().unwrap();
    assert_eq!(e.kind, TemplateErrorKind::UnterminatedString);
    assert_eq!(e.pos, 7);

    let e = Template::compile("return 1 ;").err().unwrap();
    assert_eq!(e.kind, TemplateErrorKind::UnexpectedChar);
    assert_eq!(e.pos, 9);

    let e = Template::compile("return 1 return 2").err().unwrap();
    assert_eq!(e.kind, TemplateErrorKind::TrailingInput);
    assert_eq!(e.pos, 9);

    let e = Template::compile("if x = 1:{ }").err().unwrap();
    assert_eq!(e.kind, TemplateErrorKind::UnexpectedChar);

    let e = Template::compile("if x 1:{ }").err().unwrap();
    assert_eq!(e.kind, TemplateErrorKind::Expected(TokenKind::EqEq));
    assert_eq!(e.pos, 5);

    let e = Template::compile("$(stmts)*").err().unwrap();
    assert_eq!(e.kind, TemplateErrorKind::UnknownStatement);

    let e = Template::compile_function("return 1").err().unwrap();
    assert_eq!(e.kind, TemplateErrorKind::NotAFunction);
}

#[test]
fn substitution_label_may_nest_parentheses() {
    let t = Template::compile("return $(f(g(x)))").unwrap();
    let s = t.build(vec![Substitution::Value(Expression::new_literal("42"))]).unwrap();
    assert_eq!(s.render(), "return 42\n");
}
