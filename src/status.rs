//! A generator of a Python module of status codes: one constant per code,
//! and a function that looks a code's status text up.
use vstd::prelude::*;
use crate::dispatch::{Role, key_view};
use crate::package::{Module, module_text};
use crate::syntax::{
    Assignment, Block, Expression, FunctionDefinition, IfElse, Return, Statement, body_lines,
    decimal, def_header, expr_text, indent_unit, lines_text, quoted, stmt_lines, stmts_lines, texts,
    write_decimal,
};

verus! {

/// What `heck` makes of a text in shouty snake case (`Not Found` becomes
/// `NOT_FOUND`).
pub uninterp spec fn shouty_snake_of(s: Seq<char>) -> Seq<char>;

/// Relies on heck 0.3's `ShoutySnakeCase::to_shouty_snake_case` for `str`,
/// whose result depends on the text alone.
#[verifier::external_body]
fn shouty_snake_case(s: &str) -> (r: String)
    ensures
        r@ == shouty_snake_of(s@),
{
    heck::ShoutySnakeCase::to_shouty_snake_case(s)
}

/// The input: numeric codes and their status texts, in order.
pub struct StatusCodes {
    pub codes: Vec<(u16, String)>,
}

/// Makes the module of status codes.
pub struct StatusModuleMaker {
    /// The name of the module made.
    pub module_name: String,
    /// The status text that the lookup function returns for an unknown code.
    pub unknown_status: String,
}

/// `s` is the assignment `NAME = CODE` for the entry (`code`, `name`).
pub open spec fn is_constant(s: Statement, code: u16, name: Seq<char>) -> bool {
    s is Assign && s->Assign_0.target@ == shouty_snake_of(name) && s->Assign_0.value@ == decimal(
        code as nat,
    )
}

/// `s` is `if code == CODE: return "STATUS"` with no `else` block.
pub open spec fn is_lookup_clause(s: Statement, code: u16, status: Seq<char>) -> bool {
    &&& s is IfElse
    &&& s->IfElse_0.condition is Equals
    &&& *s->IfElse_0.condition->Equals_0 is Variable
    &&& s->IfElse_0.condition->Equals_0->Variable_0@ == seq!['c', 'o', 'd', 'e']
    &&& *s->IfElse_0.condition->Equals_1 is Literal
    &&& s->IfElse_0.condition->Equals_1->Literal_0@ == decimal(code as nat)
    &&& s->IfElse_0.body_if.body@.len() == 1
    &&& s->IfElse_0.body_if.body@[0] is Return
    &&& s->IfElse_0.body_if.body@[0]->Return_0.value is Literal
    &&& s->IfElse_0.body_if.body@[0]->Return_0.value->Literal_0@ == quoted(status)
    &&& s->IfElse_0.body_else.body@.len() == 0
}

/// `f` is `def status_for_code(code):` with one clause per entry of `codes`
/// in order, then `return "UNKNOWN"`.
pub open spec fn is_lookup_function(f: FunctionDefinition, codes: Seq<(u16, String)>, unknown: Seq<char>) -> bool {
    &&& f.name@ == seq!['s', 't', 'a', 't', 'u', 's', '_', 'f', 'o', 'r', '_', 'c', 'o', 'd', 'e']
    &&& texts(f.args@) == seq![seq!['c', 'o', 'd', 'e']]
    &&& f.body@.len() == codes.len() + 1
    &&& forall|i: int|
        0 <= i < codes.len() ==> is_lookup_clause(#[trigger] f.body@[i], codes[i].0, codes[i].1@)
    &&& f.body@[codes.len() as int] is Return
    &&& f.body@[codes.len() as int]->Return_0.value is Literal
    &&& f.body@[codes.len() as int]->Return_0.value->Literal_0@ == quoted(unknown)
}

/// The rule from an entry to its constant, under a role configured by the maker.
fn constant_rule(role: &Role<&StatusModuleMaker>, entry: &(u16, String)) -> (r: Assignment)
    ensures
        r.target@ == shouty_snake_of(entry.1@),
        r.value@ == decimal(entry.0 as nat),
{
    role.config.constant_for(entry)
}

/// The line of the constant for the entry `e`: `NAME = CODE`.
pub open spec fn constant_line(e: (u16, String)) -> Seq<char> {
    shouty_snake_of(e.1@) + seq![' ', '=', ' '] + decimal(e.0 as nat)
}

/// The lines of the lookup clauses for `codes`, at the indentation `pad`:
/// `if code == CODE:`, then `return "STATUS"` one level deeper, per entry.
pub open spec fn clause_lines(codes: Seq<(u16, String)>, pad: Seq<char>) -> Seq<Seq<char>>
    decreases codes.len(),
{
    if codes.len() == 0 {
        Seq::empty()
    } else {
        let e = codes[codes.len() - 1];
        clause_lines(codes.subrange(0, codes.len() - 1), pad) + seq![
            pad + seq!['i', 'f', ' ', 'c', 'o', 'd', 'e', ' ', '=', '=', ' '] + decimal(e.0 as nat)
                + seq![':'],
            pad + indent_unit() + seq!['r', 'e', 't', 'u', 'r', 'n', ' '] + quoted(e.1@),
        ]
    }
}

/// The lines of the status module for `codes`: one constant per entry, the
/// header of `status_for_code(code)`, its clauses, and its final return.
pub open spec fn status_lines(codes: Seq<(u16, String)>, unknown: Seq<char>) -> Seq<Seq<char>> {
    codes.map_values(|e: (u16, String)| constant_line(e)) + seq![
        def_header(
            seq!['s', 't', 'a', 't', 'u', 's', '_', 'f', 'o', 'r', '_', 'c', 'o', 'd', 'e'],
            seq![seq!['c', 'o', 'd', 'e']],
        ),
    ] + clause_lines(codes, indent_unit()) + seq![
        indent_unit() + seq!['r', 'e', 't', 'u', 'r', 'n', ' '] + quoted(unknown),
    ]
}

proof fn lemma_constant_lines(stmts: Seq<Statement>, codes: Seq<(u16, String)>)
    requires
        stmts.len() == codes.len(),
        forall|i: int| 0 <= i < codes.len() ==> is_constant(#[trigger] stmts[i], codes[i].0, codes[i].1@),
    ensures
        stmts_lines(stmts, Seq::empty()) == codes.map_values(|e: (u16, String)| constant_line(e)),
    decreases stmts.len(),
{
    let n = stmts.len() as int;
    if n == 0 {
        assert(codes.map_values(|e: (u16, String)| constant_line(e)) =~= Seq::<Seq<char>>::empty());
    } else {
        let front = stmts.subrange(0, n - 1);
        let cfront = codes.subrange(0, n - 1);
        assert forall|i: int| 0 <= i < cfront.len() implies is_constant(
            #[trigger] front[i],
            cfront[i].0,
            cfront[i].1@,
        ) by {
            assert(front[i] == stmts[i]);
            assert(cfront[i] == codes[i]);
        }
        lemma_constant_lines(front, cfront);
        assert(is_constant(stmts[n - 1], codes[n - 1].0, codes[n - 1].1@));
        let a = stmts[n - 1]->Assign_0;
        assert(stmt_lines(stmts[n - 1], Seq::empty()) =~= seq![constant_line(codes[n - 1])]);
        assert(codes.map_values(|e: (u16, String)| constant_line(e)) =~= cfront.map_values(
            |e: (u16, String)| constant_line(e),
        ) + seq![constant_line(codes[n - 1])]);
    }
}

proof fn lemma_clause_lines(stmts: Seq<Statement>, codes: Seq<(u16, String)>)
    requires
        stmts.len() == codes.len(),
        forall|i: int|
            0 <= i < codes.len() ==> is_lookup_clause(#[trigger] stmts[i], codes[i].0, codes[i].1@),
    ensures
        stmts_lines(stmts, indent_unit()) == clause_lines(codes, indent_unit()),
    decreases stmts.len(),
{
    let n = stmts.len() as int;
    if n > 0 {
        let front = stmts.subrange(0, n - 1);
        let cfront = codes.subrange(0, n - 1);
        assert forall|i: int| 0 <= i < cfront.len() implies is_lookup_clause(
            #[trigger] front[i],
            cfront[i].0,
            cfront[i].1@,
        ) by {
            assert(front[i] == stmts[i]);
            assert(cfront[i] == codes[i]);
        }
        lemma_clause_lines(front, cfront);
        let s = stmts[n - 1];
        let e = codes[n - 1];
        assert(is_lookup_clause(s, e.0, e.1@));
        let ie = s->IfElse_0;
        let pad = indent_unit();
        let inner = pad + indent_unit();
        let ret = ie.body_if.body@[0];
        assert(ie.body_if.body@.subrange(0, 0) =~= Seq::<Statement>::empty());
        assert(stmts_lines(ie.body_if.body@.subrange(0, 0), inner) =~= Seq::<Seq<char>>::empty());
        assert(stmt_lines(ret, inner) =~= seq![
            inner + seq!['r', 'e', 't', 'u', 'r', 'n', ' '] + quoted(e.1@),
        ]);
        assert(body_lines(ie.body_if.body@, inner) =~= seq![
            inner + seq!['r', 'e', 't', 'u', 'r', 'n', ' '] + quoted(e.1@),
        ]);
        let lhs = *ie.condition->Equals_0;
        let rhs = *ie.condition->Equals_1;
        assert(expr_text(lhs) == seq!['c', 'o', 'd', 'e']);
        assert(expr_text(rhs) == decimal(e.0 as nat));
        assert(expr_text(ie.condition) == expr_text(lhs) + seq![' ', '=', '=', ' '] + expr_text(rhs));
        assert(expr_text(ie.condition) =~= seq!['c', 'o', 'd', 'e', ' ', '=', '=', ' '] + decimal(
            e.0 as nat,
        ));
        assert(stmt_lines(s, pad) == seq![pad + seq!['i', 'f', ' '] + expr_text(ie.condition) + seq![':']]
            + body_lines(ie.body_if.body@, inner));
        assert(pad + seq!['i', 'f', ' '] + expr_text(ie.condition) + seq![':'] =~= pad + seq![
            'i', 'f', ' ', 'c', 'o', 'd', 'e', ' ', '=', '=', ' '] + decimal(e.0 as nat) + seq![':']);
        assert(stmt_lines(s, pad) =~= seq![
            pad + seq!['i', 'f', ' ', 'c', 'o', 'd', 'e', ' ', '=', '=', ' '] + decimal(e.0 as nat)
                + seq![':'],
            pad + indent_unit() + seq!['r', 'e', 't', 'u', 'r', 'n', ' '] + quoted(e.1@),
        ]);
    }
}

/// The statements that `StatusModuleMaker::make` promises render as the
/// lines `status_lines`: the module's text is fixed down to the byte.
pub proof fn lemma_status_module_lines(m: Module, codes: Seq<(u16, String)>, unknown: Seq<char>)
    requires
        m.statements@.len() == codes.len() + 1,
        forall|i: int|
            0 <= i < codes.len() ==> is_constant(#[trigger] m.statements@[i], codes[i].0, codes[i].1@),
        m.statements@[codes.len() as int] is FuncDef,
        is_lookup_function(m.statements@[codes.len() as int]->FuncDef_0, codes, unknown),
    ensures
        stmts_lines(m.statements@, Seq::empty()) == status_lines(codes, unknown),
        module_text(m) == lines_text(status_lines(codes, unknown)),
{
    let n = codes.len() as int;
    let st = m.statements@;
    let consts = st.subrange(0, n);
    assert forall|i: int| 0 <= i < n implies is_constant(#[trigger] consts[i], codes[i].0, codes[i].1@) by {
        assert(consts[i] == st[i]);
    }
    lemma_constant_lines(consts, codes);
    let f = st[n]->FuncDef_0;
    let body = f.body@;
    let clauses = body.subrange(0, n);
    assert forall|i: int| 0 <= i < n implies is_lookup_clause(
        #[trigger] clauses[i],
        codes[i].0,
        codes[i].1@,
    ) by {
        assert(clauses[i] == body[i]);
    }
    lemma_clause_lines(clauses, codes);
    let pad = indent_unit();
    let last_line = pad + seq!['r', 'e', 't', 'u', 'r', 'n', ' '] + quoted(unknown);
    assert(stmt_lines(body[n], pad) =~= seq![last_line]);
    assert(body_lines(body, pad) == stmts_lines(clauses, pad) + stmt_lines(body[n], pad));
    let header = def_header(
        seq!['s', 't', 'a', 't', 'u', 's', '_', 'f', 'o', 'r', '_', 'c', 'o', 'd', 'e'],
        seq![seq!['c', 'o', 'd', 'e']],
    );
    assert(stmt_lines(st[n], Seq::empty()) =~= seq![header] + clause_lines(codes, pad) + seq![last_line]);
    assert(st.subrange(0, st.len() - 1) == consts);
    assert(stmts_lines(st, Seq::empty()) =~= status_lines(codes, unknown));
}

impl StatusModuleMaker {
    /// A maker whose lookup function returns the empty string for an unknown code.
    pub fn new(module_name: &str) -> (r: StatusModuleMaker)
        ensures
            r.module_name@ == module_name@,
            r.unknown_status@ == Seq::<char>::empty(),
    {
        StatusModuleMaker { module_name: module_name.to_owned(), unknown_status: String::new() }
    }

    /// The constant named `name` bound to `code`: `name = CODE`.
    pub fn constant(&self, name: String, code: u16) -> (r: Assignment)
        ensures
            r.target@ == name@,
            r.value@ == decimal(code as nat),
    {
        let mut value = String::new();
        write_decimal(code, &mut value);
        assert(value@ =~= decimal(code as nat));
        Assignment { target: name, value }
    }

    /// The constant for one entry: its status text in shouty snake case,
    /// bound to its code.
    pub fn constant_for(&self, entry: &(u16, String)) -> (r: Assignment)
        ensures
            r.target@ == shouty_snake_of(entry.1@),
            r.value@ == decimal(entry.0 as nat),
    {
        self.constant(shouty_snake_case(entry.1.as_str()), entry.0)
    }

    /// The lookup clause for one entry: `if code == CODE: return "STATUS"`.
    pub fn lookup_clause(&self, entry: &(u16, String)) -> (r: Statement)
        ensures
            is_lookup_clause(r, entry.0, entry.1@),
    {
        let cond = Expression::new_equals(Expression::new_variable("code"), Expression::new_number(entry.0));
        proof {
            reveal_strlit("code");
        }
        let ret = Statement::Return(Return::new(Expression::new_string(entry.1.as_str())));
        assert("code"@ =~= seq!['c', 'o', 'd', 'e']);
        let body_if = Block::new().push(ret);
        Statement::IfElse(IfElse { condition: cond, body_if, body_else: Block::new() })
    }

    /// The function `status_for_code(code)`: one clause per code in order,
    /// then a return of the unknown status.
    pub fn lookup_function(&self, input: &StatusCodes) -> (r: FunctionDefinition)
        ensures
            is_lookup_function(r, input.codes@, self.unknown_status@),
    {
        proof {
            reveal_strlit("status_for_code");
            reveal_strlit("code");
        }
        let mut f = FunctionDefinition::new("status_for_code").add_arg("code");
        assert("code"@ =~= seq!['c', 'o', 'd', 'e']);
        assert("status_for_code"@ =~= seq!['s', 't', 'a', 't', 'u', 's', '_', 'f', 'o', 'r', '_', 'c', 'o', 'd', 'e']);
        assert(texts(f.args@) =~= seq![seq!['c', 'o', 'd', 'e']]);
        let mut i: usize = 0;
        while i < input.codes.len()
            invariant
                i <= input.codes@.len(),
                f.name@ == seq!['s', 't', 'a', 't', 'u', 's', '_', 'f', 'o', 'r', '_', 'c', 'o', 'd', 'e'],
                texts(f.args@) == seq![seq!['c', 'o', 'd', 'e']],
                f.body@.len() == i,
                forall|j: int|
                    0 <= j < i ==> is_lookup_clause(
                        #[trigger] f.body@[j],
                        input.codes@[j].0,
                        input.codes@[j].1@,
                    ),
            decreases input.codes.len() - i,
        {
            let clause = self.lookup_clause(&input.codes[i]);
            f = f.push(clause);
            i = i + 1;
        }
        let fallback = Statement::Return(Return::new(Expression::new_string(self.unknown_status.as_str())));
        f.push(fallback)
    }

    /// The module: one constant per code, in input order, then the lookup function.
    pub fn make(&self, input: &StatusCodes) -> (r: Module)
        ensures
            r.name@ == self.module_name@,
            r.statements@.len() == input.codes@.len() + 1,
            forall|i: int|
                0 <= i < input.codes@.len() ==> is_constant(
                    #[trigger] r.statements@[i],
                    input.codes@[i].0,
                    input.codes@[i].1@,
                ),
            r.statements@[input.codes@.len() as int] is FuncDef,
            is_lookup_function(
                r.statements@[input.codes@.len() as int]->FuncDef_0,
                input.codes@,
                self.unknown_status@,
            ),
            module_text(r) == lines_text(status_lines(input.codes@, self.unknown_status@)),
    {
        let mut entries: Vec<&(u16, String)> = Vec::new();
        let mut i: usize = 0;
        while i < input.codes.len()
            invariant
                i <= input.codes@.len(),
                entries@.len() == i,
                forall|j: int| 0 <= j < i ==> *#[trigger] entries@[j] == input.codes@[j],
            decreases input.codes.len() - i,
        {
            entries.push(&input.codes[i]);
            i = i + 1;
        }
        let mut role = Role::new("StatusModuleMaker", self);
        let rule = match role.define("&(u16, String)", "Assignment", constant_rule) {
            Ok(rule) => rule,
            Err(_) => {
                // Not taken: the role is new, so its first rule has no rival.
                return Module::new(self.module_name.as_str());
            },
        };
        assert(role.rules@[0] == key_view(rule.key));
        assert(role.rules@.contains(key_view(rule.key)));
        let constants = role.apply_over_sequence(&rule, entries);
        let mut m = Module::new(self.module_name.as_str());
        let mut k: usize = 0;
        while k < constants.len()
            invariant
                k <= constants@.len(),
                constants@.len() == input.codes@.len(),
                m.name@ == self.module_name@,
                m.statements@.len() == k,
                forall|j: int|
                    0 <= j < constants@.len() ==> #[trigger] constants@[j].target@ == shouty_snake_of(
                        input.codes@[j].1@,
                    ) && constants@[j].value@ == decimal(input.codes@[j].0 as nat),
                forall|j: int|
                    0 <= j < k ==> is_constant(
                        #[trigger] m.statements@[j],
                        input.codes@[j].0,
                        input.codes@[j].1@,
                    ),
            decreases constants.len() - k,
        {
            let c = Assignment { target: constants[k].target.clone(), value: constants[k].value.clone() };
            m.add_statement(Statement::Assign(c));
            k = k + 1;
        }
        let f = self.lookup_function(input);
        m.add_statement(Statement::FuncDef(f));
        proof {
            lemma_status_module_lines(m, input.codes@, self.unknown_status@);
        }
        m
    }
}

} // verus!
