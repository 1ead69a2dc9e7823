//! The syntax model: expressions, statements and blocks, and how they render.
use vstd::prelude::*;

verus! {

// ---------------------------------------------------------------------------
// Rendering, stated over character sequences
// ---------------------------------------------------------------------------

/// One level of indentation: four spaces.
pub open spec fn indent_unit() -> Seq<char> {
    seq![' ', ' ', ' ', ' ']
}

/// The text of a list of lines: each line followed by a newline.
pub open spec fn lines_text(lines: Seq<Seq<char>>) -> Seq<char>
    decreases lines.len(),
{
    if lines.len() == 0 {
        Seq::empty()
    } else {
        lines_text(lines.drop_last()) + lines.last() + seq!['\n']
    }
}

/// The views of a sequence of strings.
pub open spec fn texts(v: Seq<String>) -> Seq<Seq<char>> {
    v.map_values(|s: String| s@)
}

/// The characters `0` to `9`, indexed by value.
pub open spec fn digit_char(d: nat) -> char {
    seq!['0', '1', '2', '3', '4', '5', '6', '7', '8', '9'][d as int]
}

/// The decimal digits of `n`, most significant first, with no leading zero.
pub open spec fn decimal(n: nat) -> Seq<char>
    decreases n,
{
    if n < 10 {
        seq![digit_char(n)]
    } else {
        decimal(n / 10).push(digit_char(n % 10))
    }
}

/// `s` between double quotes.
pub open spec fn quoted(s: Seq<char>) -> Seq<char> {
    seq!['"'] + s + seq!['"']
}

pub proof fn lemma_lines_text_concat(a: Seq<Seq<char>>, b: Seq<Seq<char>>)
    ensures
        lines_text(a + b) == lines_text(a) + lines_text(b),
    decreases b.len(),
{
    if b.len() == 0 {
        assert(a + b =~= a);
        assert(lines_text(b) =~= Seq::<char>::empty());
        assert(lines_text(a) + lines_text(b) =~= lines_text(a));
    } else {
        lemma_lines_text_concat(a, b.drop_last());
        assert((a + b).drop_last() =~= a + b.drop_last());
        assert((a + b).last() == b.last());
        assert(lines_text(a + b) =~= lines_text(a) + lines_text(b));
    }
}

pub proof fn lemma_lines_text_one(l: Seq<char>)
    ensures
        lines_text(seq![l]) == l + seq!['\n'],
{
    assert(seq![l].drop_last() =~= Seq::<Seq<char>>::empty());
    assert(lines_text(Seq::<Seq<char>>::empty()) =~= Seq::<char>::empty());
    assert(lines_text(seq![l]) =~= Seq::<char>::empty() + l + seq!['\n']);
    assert(Seq::<char>::empty() + l + seq!['\n'] =~= l + seq!['\n']);
}

// ---------------------------------------------------------------------------
// Expressions
// ---------------------------------------------------------------------------

/// An expression: a literal whose text is already quoted or escaped, a
/// variable, or an equality test between two expressions.
#[derive(Debug)]
pub enum Expression {
    Equals(Box<Expression>, Box<Expression>),
    Literal(String),
    Variable(String),
}

/// The rendered text of an expression.
pub open spec fn expr_text(e: Expression) -> Seq<char>
    decreases e,
{
    match e {
        Expression::Equals(lhs, rhs) => expr_text(*lhs) + seq![' ', '=', '=', ' '] + expr_text(*rhs),
        Expression::Literal(lit) => lit@,
        Expression::Variable(name) => name@,
    }
}

fn digit_str(d: u16) -> (r: &'static str)
    requires
        d < 10,
    ensures
        r@ == seq![digit_char(d as nat)],
{
    proof {
        reveal_strlit("0");
        reveal_strlit("1");
        reveal_strlit("2");
        reveal_strlit("3");
        reveal_strlit("4");
        reveal_strlit("5");
        reveal_strlit("6");
        reveal_strlit("7");
        reveal_strlit("8");
        reveal_strlit("9");
    }
    let r = if d == 0 { "0" } else if d == 1 { "1" } else if d == 2 { "2" } else if d == 3 { "3" }
        else if d == 4 { "4" } else if d == 5 { "5" } else if d == 6 { "6" } else if d == 7 { "7" }
        else if d == 8 { "8" } else { "9" };
    assert(r@ =~= seq![digit_char(d as nat)]);
    r
}

/// Appends the decimal digits of `n`.
pub fn write_decimal(n: u16, out: &mut String)
    ensures
        final(out)@ == old(out)@ + decimal(n as nat),
    decreases n,
{
    if n >= 10 {
        write_decimal(n / 10, out);
    }
    out.append(digit_str(n % 10));
    proof {
        if n >= 10 {
            assert(decimal(n as nat) =~= decimal((n / 10) as nat) + seq![digit_char((n % 10) as nat)]);
        }
    }
    assert(final(out)@ =~= old(out)@ + decimal(n as nat));
}

// ---------------------------------------------------------------------------
// Statements
// ---------------------------------------------------------------------------

/// `target = value`, with the value given as already rendered text.
#[derive(Debug)]
pub struct Assignment {
    pub target: String,
    pub value: String,
}

/// `return <expression>`.
#[derive(Debug)]
pub struct Return {
    pub value: Expression,
}

/// `def name(args):` followed by its body.
#[derive(Debug)]
pub struct FunctionDefinition {
    pub name: String,
    pub args: Vec<String>,
    pub body: Vec<Statement>,
}

/// An ordered sequence of statements, the branch of a conditional.
#[derive(Debug)]
pub struct Block {
    pub body: Vec<Statement>,
}

/// `if <condition>:` with its block, and an `else:` block when that is not empty.
#[derive(Debug)]
pub struct IfElse {
    pub condition: Expression,
    pub body_if: Block,
    pub body_else: Block,
}

/// A statement of the model.
#[derive(Debug)]
pub enum Statement {
    Assign(Assignment),
    FuncDef(FunctionDefinition),
    IfElse(IfElse),
    Return(Return),
    Raw(String),
}

/// The positional parameters of a function, separated by `, `.
pub open spec fn args_text(args: Seq<Seq<char>>) -> Seq<char>
    decreases args.len(),
{
    if args.len() == 0 {
        Seq::empty()
    } else if args.len() == 1 {
        args[0]
    } else {
        args_text(args.drop_last()) + seq![',', ' '] + args.last()
    }
}

/// The header line of a function definition, without indentation.
pub open spec fn def_header(name: Seq<char>, args: Seq<Seq<char>>) -> Seq<char> {
    seq!['d', 'e', 'f', ' '] + name + seq!['('] + args_text(args) + seq![')', ':']
}

/// The line `pass`.
pub open spec fn pass_line() -> Seq<char> {
    seq!['p', 'a', 's', 's']
}

/// The lines of a statement rendered with the indentation `pad`.
pub open spec fn stmt_lines(s: Statement, pad: Seq<char>) -> Seq<Seq<char>>
    decreases s, 0nat,
{
    match s {
        Statement::Assign(a) => seq![pad + a.target@ + seq![' ', '=', ' '] + a.value@],
        Statement::FuncDef(f) => seq![pad + def_header(f.name@, texts(f.args@))] + body_lines(
            f.body@,
            pad + indent_unit(),
        ),
        Statement::IfElse(ie) => seq![pad + seq!['i', 'f', ' '] + expr_text(ie.condition) + seq![':']]
            + body_lines(ie.body_if.body@, pad + indent_unit()) + if ie.body_else.body@.len() == 0 {
            Seq::empty()
        } else {
            seq![pad + seq!['e', 'l', 's', 'e', ':']] + body_lines(
                ie.body_else.body@,
                pad + indent_unit(),
            )
        },
        Statement::Return(r) => seq![pad + seq!['r', 'e', 't', 'u', 'r', 'n', ' '] + expr_text(r.value)],
        Statement::Raw(text) => seq![pad + text@],
    }
}

/// The lines of a body: its statements in order, or a lone `pass` when it is empty.
pub open spec fn body_lines(b: Seq<Statement>, pad: Seq<char>) -> Seq<Seq<char>>
    decreases b, 1nat,
{
    if b.len() == 0 {
        seq![pad + pass_line()]
    } else {
        stmts_lines(b, pad)
    }
}

/// The lines of each statement of `b` in order, all at the indentation `pad`.
pub open spec fn stmts_lines(b: Seq<Statement>, pad: Seq<char>) -> Seq<Seq<char>>
    decreases b, 0nat,
{
    if b.len() == 0 {
        Seq::empty()
    } else {
        stmts_lines(b.subrange(0, b.len() - 1), pad) + stmt_lines(b[b.len() - 1], pad)
    }
}

// ---------------------------------------------------------------------------
// Rendering, executable
// ---------------------------------------------------------------------------

proof fn lemma_stmts_lines_step(b: Seq<Statement>, i: int, pad: Seq<char>)
    requires
        0 <= i < b.len(),
    ensures
        stmts_lines(b.subrange(0, i + 1), pad) == stmts_lines(b.subrange(0, i), pad) + stmt_lines(
            b[i],
            pad,
        ),
{
    let c = b.subrange(0, i + 1);
    assert(c.subrange(0, c.len() - 1) =~= b.subrange(0, i));
    assert(c[c.len() - 1] == b[i]);
}

/// `pad` followed by one more indentation unit.
fn deeper(pad: &str) -> (r: String)
    ensures
        r@ == pad@ + indent_unit(),
{
    let mut r = pad.to_owned();
    proof {
        reveal_strlit("    ");
    }
    r.append("    ");
    assert(r@ =~= pad@ + indent_unit());
    r
}

/// Appends `pad`, `text` and a newline.
fn write_line(out: &mut String, pad: &str, text: &str)
    ensures
        final(out)@ == old(out)@ + lines_text(seq![pad@ + text@]),
{
    out.append(pad);
    out.append(text);
    proof {
        reveal_strlit("\n");
    }
    out.append("\n");
    proof {
        lemma_lines_text_one(pad@ + text@);
    }
    assert(final(out)@ =~= old(out)@ + lines_text(seq![pad@ + text@]));
}

/// Appends the statements of `b` in order at the indentation `pad`.
pub(crate) fn write_stmts(b: &Vec<Statement>, out: &mut String, pad: &str)
    ensures
        final(out)@ == old(out)@ + lines_text(stmts_lines(b@, pad@)),
    decreases b@, 0nat,
{
    let ghost start = out@;
    let mut i: usize = 0;
    assert(b@.subrange(0, 0) =~= Seq::<Statement>::empty());
    assert(lines_text(stmts_lines(b@.subrange(0, 0), pad@)) =~= Seq::<char>::empty());
    while i < b.len()
        invariant
            i <= b.len(),
            out@ == start + lines_text(stmts_lines(b@.subrange(0, i as int), pad@)),
        decreases b.len() - i,
    {
        assert(decreases_to!(b@ => b@[i as int]));
        b[i].write_into(out, pad);
        proof {
            lemma_stmts_lines_step(b@, i as int, pad@);
            lemma_lines_text_concat(
                stmts_lines(b@.subrange(0, i as int), pad@),
                stmt_lines(b@[i as int], pad@),
            );
        }
        i = i + 1;
    }
    assert(b@.subrange(0, b.len() as int) =~= b@);
}

/// Appends a body: its statements, or `pass` when it has none.
fn write_body(b: &Vec<Statement>, out: &mut String, pad: &str)
    ensures
        final(out)@ == old(out)@ + lines_text(body_lines(b@, pad@)),
    decreases b@, 1nat,
{
    if b.len() == 0 {
        proof {
            reveal_strlit("pass");
        }
        write_line(out, pad, "pass");
        assert("pass"@ =~= pass_line());
        assert(seq![pad@ + "pass"@] =~= body_lines(b@, pad@));
    } else {
        write_stmts(b, out, pad);
    }
}

impl Expression {
    /// Appends the text of the expression.
    pub fn write_into(&self, out: &mut String)
        ensures
            final(out)@ == old(out)@ + expr_text(*self),
        decreases self,
    {
        match self {
            Expression::Equals(lhs, rhs) => {
                lhs.write_into(out);
                proof {
                    reveal_strlit(" == ");
                }
                out.append(" == ");
                rhs.write_into(out);
                assert(final(out)@ =~= old(out)@ + expr_text(*self));
            },
            Expression::Literal(lit) => {
                out.append(lit.as_str());
            },
            Expression::Variable(name) => {
                out.append(name.as_str());
            },
        }
    }
}

impl FunctionDefinition {
    fn write_into(&self, out: &mut String, pad: &str)
        ensures
            final(out)@ == old(out)@ + lines_text(stmt_lines(Statement::FuncDef(*self), pad@)),
        decreases self, 2nat,
    {
        let ghost start = out@;
        out.append(pad);
        proof {
            reveal_strlit("def ");
            reveal_strlit("(");
            reveal_strlit(", ");
            reveal_strlit("):\n");
        }
        out.append("def ");
        out.append(self.name.as_str());
        out.append("(");
        let ghost head = out@;
        let mut i: usize = 0;
        assert(texts(self.args@.subrange(0, 0)) =~= Seq::<Seq<char>>::empty());
        while i < self.args.len()
            invariant
                i <= self.args.len(),
                out@ == head + args_text(texts(self.args@.subrange(0, i as int))),
            decreases self.args.len() - i,
        {
            let ghost before = texts(self.args@.subrange(0, i as int));
            let ghost after = texts(self.args@.subrange(0, i as int + 1));
            assert(after.drop_last() =~= before);
            assert(after.last() == self.args@[i as int]@);
            if i > 0 {
                proof {
                    reveal_strlit(", ");
                }
                out.append(", ");
                out.append(self.args[i].as_str());
                assert(", "@ =~= seq![',', ' ']);
                assert(args_text(after) == args_text(before) + seq![',', ' '] + after.last());
                assert(out@ =~= head + args_text(after));
            } else {
                out.append(self.args[i].as_str());
                assert(after.len() == 1);
                assert(args_text(before) =~= Seq::<char>::empty());
                assert(out@ =~= head + args_text(after));
            }
            i = i + 1;
        }
        assert(self.args@.subrange(0, self.args.len() as int) =~= self.args@);
        out.append("):\n");
        let ghost header = pad@ + def_header(self.name@, texts(self.args@));
        proof {
            lemma_lines_text_one(header);
        }
        assert(out@ =~= start + lines_text(seq![header]));
        let inner = deeper(pad);
        write_body(&self.body, out, inner.as_str());
        proof {
            lemma_lines_text_concat(seq![header], body_lines(self.body@, pad@ + indent_unit()));
        }
        assert(final(out)@ =~= old(out)@ + lines_text(stmt_lines(Statement::FuncDef(*self), pad@)));
    }
}

impl IfElse {
    fn write_into(&self, out: &mut String, pad: &str)
        ensures
            final(out)@ == old(out)@ + lines_text(stmt_lines(Statement::IfElse(*self), pad@)),
        decreases self, 2nat,
    {
        let ghost start = out@;
        out.append(pad);
        proof {
            reveal_strlit("if ");
            reveal_strlit(":\n");
            reveal_strlit("else:");
        }
        out.append("if ");
        self.condition.write_into(out);
        out.append(":\n");
        let ghost header = pad@ + seq!['i', 'f', ' '] + expr_text(self.condition) + seq![':'];
        proof {
            lemma_lines_text_one(header);
        }
        assert(out@ =~= start + lines_text(seq![header]));
        let inner = deeper(pad);
        let ghost if_part = body_lines(self.body_if.body@, pad@ + indent_unit());
        write_body(&self.body_if.body, out, inner.as_str());
        proof {
            lemma_lines_text_concat(seq![header], if_part);
        }
        if self.body_else.body.len() > 0 {
            let ghost mid = out@;
            write_line(out, pad, "else:");
            let ghost else_part = body_lines(self.body_else.body@, pad@ + indent_unit());
            write_body(&self.body_else.body, out, inner.as_str());
            proof {
                lemma_lines_text_concat(seq![pad@ + "else:"@], else_part);
                lemma_lines_text_concat(seq![header] + if_part, seq![pad@ + "else:"@] + else_part);
                assert("else:"@ =~= seq!['e', 'l', 's', 'e', ':']);
                assert(seq![pad@ + "else:"@] =~= seq![pad@ + seq!['e', 'l', 's', 'e', ':']]);
                assert(seq![header] + if_part + (seq![pad@ + "else:"@] + else_part) =~= stmt_lines(
                    Statement::IfElse(*self),
                    pad@,
                ));
            }
            assert(final(out)@ =~= old(out)@ + lines_text(stmt_lines(Statement::IfElse(*self), pad@)));
        } else {
            assert(seq![header] + if_part =~= stmt_lines(Statement::IfElse(*self), pad@));
        }
    }
}

impl Statement {
    /// Appends the lines of the statement at the indentation `pad`.
    pub fn write_into(&self, out: &mut String, pad: &str)
        ensures
            final(out)@ == old(out)@ + lines_text(stmt_lines(*self, pad@)),
        decreases self, 3nat,
    {
        match self {
            Statement::Assign(a) => {
                let ghost start = out@;
                out.append(pad);
                out.append(a.target.as_str());
                proof {
                    reveal_strlit(" = ");
                    reveal_strlit("\n");
                }
                out.append(" = ");
                out.append(a.value.as_str());
                out.append("\n");
                let ghost line = pad@ + a.target@ + seq![' ', '=', ' '] + a.value@;
                proof {
                    lemma_lines_text_one(line);
                }
                assert(out@ =~= start + lines_text(stmt_lines(*self, pad@)));
            },
            Statement::FuncDef(f) => f.write_into(out, pad),
            Statement::IfElse(ie) => ie.write_into(out, pad),
            Statement::Return(r) => {
                let ghost start = out@;
                out.append(pad);
                proof {
                    reveal_strlit("return ");
                    reveal_strlit("\n");
                }
                out.append("return ");
                r.value.write_into(out);
                out.append("\n");
                let ghost line = pad@ + seq!['r', 'e', 't', 'u', 'r', 'n', ' '] + expr_text(r.value);
                proof {
                    lemma_lines_text_one(line);
                }
                assert(out@ =~= start + lines_text(stmt_lines(*self, pad@)));
            },
            Statement::Raw(text) => {
                write_line(out, pad, text.as_str());
            },
        }
    }
}

// ---------------------------------------------------------------------------
// Construction
// ---------------------------------------------------------------------------

impl Expression {
    /// `lhs == rhs`.
    pub fn new_equals(lhs: Expression, rhs: Expression) -> (r: Expression)
        ensures
            r == Expression::Equals(Box::new(lhs), Box::new(rhs)),
    {
        Expression::Equals(Box::new(lhs), Box::new(rhs))
    }

    /// A variable reference, rendered as its name.
    pub fn new_variable(name: &str) -> (r: Expression)
        ensures
            r is Variable,
            r->Variable_0@ == name@,
    {
        Expression::Variable(name.to_owned())
    }

    /// A literal whose text is already quoted or escaped; rendered unchanged.
    pub fn new_literal(text: &str) -> (r: Expression)
        ensures
            r is Literal,
            r->Literal_0@ == text@,
    {
        Expression::Literal(text.to_owned())
    }

    /// A string literal: `text` between double quotes, with no escaping.
    pub fn new_string(text: &str) -> (r: Expression)
        ensures
            r is Literal,
            r->Literal_0@ == quoted(text@),
    {
        let mut lit = String::new();
        proof {
            reveal_strlit("\"");
        }
        lit.append("\"");
        lit.append(text);
        lit.append("\"");
        assert(lit@ =~= quoted(text@));
        Expression::Literal(lit)
    }

    /// An integer literal in decimal.
    pub fn new_number(n: u16) -> (r: Expression)
        ensures
            r is Literal,
            r->Literal_0@ == decimal(n as nat),
    {
        let mut lit = String::new();
        write_decimal(n, &mut lit);
        assert(lit@ =~= decimal(n as nat));
        Expression::Literal(lit)
    }

    /// The rendered text of the expression.
    pub fn render(&self) -> (r: String)
        ensures
            r@ == expr_text(*self),
    {
        let mut out = String::new();
        self.write_into(&mut out);
        assert(out@ =~= expr_text(*self));
        out
    }
}

impl Assignment {
    pub fn new(target: &str, value: &str) -> (r: Assignment)
        ensures
            r.target@ == target@,
            r.value@ == value@,
    {
        Assignment { target: target.to_owned(), value: value.to_owned() }
    }
}

impl Return {
    pub fn new(value: Expression) -> (r: Return)
        ensures
            r.value == value,
    {
        Return { value }
    }
}

impl FunctionDefinition {
    /// A function with no parameters and an empty body.
    pub fn new(name: &str) -> (r: FunctionDefinition)
        ensures
            r.name@ == name@,
            r.args@.len() == 0,
            r.body@.len() == 0,
    {
        FunctionDefinition { name: name.to_owned(), args: Vec::new(), body: Vec::new() }
    }

    /// Appends one positional parameter.
    pub fn add_arg(self, name: &str) -> (r: FunctionDefinition)
        ensures
            r.name == self.name,
            texts(r.args@) == texts(self.args@).push(name@),
            r.body == self.body,
    {
        let mut me = self;
        me.args.push(name.to_owned());
        assert(texts(me.args@) =~= texts(self.args@).push(name@));
        me
    }

    /// Appends positional parameters, in order.
    pub fn add_args(self, names: Vec<String>) -> (r: FunctionDefinition)
        ensures
            r.name == self.name,
            r.args@ == self.args@ + names@,
            r.body == self.body,
    {
        let mut me = self;
        let mut names = names;
        me.args.append(&mut names);
        me
    }

    /// Appends one statement to the body.
    pub fn push(self, stmt: Statement) -> (r: FunctionDefinition)
        ensures
            r.name == self.name,
            r.args == self.args,
            r.body@ == self.body@.push(stmt),
    {
        let mut me = self;
        me.body.push(stmt);
        me
    }

    /// Appends statements to the body, in order.
    pub fn extend(self, stmts: Vec<Statement>) -> (r: FunctionDefinition)
        ensures
            r.name == self.name,
            r.args == self.args,
            r.body@ == self.body@ + stmts@,
    {
        let mut me = self;
        let mut stmts = stmts;
        me.body.append(&mut stmts);
        me
    }
}

impl Block {
    /// Appends the block's statements at the indentation `pad`, or `pass`
    /// when it has none.
    pub fn write_into(&self, out: &mut String, pad: &str)
        ensures
            final(out)@ == old(out)@ + lines_text(body_lines(self.body@, pad@)),
    {
        write_body(&self.body, out, pad)
    }

    /// An empty block.
    pub fn new() -> (r: Block)
        ensures
            r.body@.len() == 0,
    {
        Block { body: Vec::new() }
    }

    pub fn is_empty(&self) -> (r: bool)
        ensures
            r == (self.body@.len() == 0),
    {
        self.body.len() == 0
    }

    /// Appends one statement.
    pub fn push(self, stmt: Statement) -> (r: Block)
        ensures
            r.body@ == self.body@.push(stmt),
    {
        let mut me = self;
        me.body.push(stmt);
        me
    }

    /// Appends statements, in order.
    pub fn extend(self, stmts: Vec<Statement>) -> (r: Block)
        ensures
            r.body@ == self.body@ + stmts@,
    {
        let mut me = self;
        let mut stmts = stmts;
        me.body.append(&mut stmts);
        me
    }
}

impl IfElse {
    /// A conditional on `condition` with two empty blocks.
    pub fn new(condition: Expression) -> (r: IfElse)
        ensures
            r.condition == condition,
            r.body_if.body@.len() == 0,
            r.body_else.body@.len() == 0,
    {
        IfElse { condition, body_if: Block::new(), body_else: Block::new() }
    }

    /// Replaces the `if` block by what `func` makes of it.
    pub fn with_body_if<F: FnOnce(Block) -> Block>(self, func: F) -> (r: IfElse)
        requires
            func.requires((self.body_if,)),
        ensures
            r.condition == self.condition,
            func.ensures((self.body_if,), r.body_if),
            r.body_else == self.body_else,
    {
        let IfElse { condition, body_if, body_else } = self;
        let body_if = func(body_if);
        IfElse { condition, body_if, body_else }
    }

    /// Replaces the `else` block by what `func` makes of it.
    pub fn with_body_else<F: FnOnce(Block) -> Block>(self, func: F) -> (r: IfElse)
        requires
            func.requires((self.body_else,)),
        ensures
            r.condition == self.condition,
            r.body_if == self.body_if,
            func.ensures((self.body_else,), r.body_else),
    {
        let IfElse { condition, body_if, body_else } = self;
        let body_else = func(body_else);
        IfElse { condition, body_if, body_else }
    }
}

impl Statement {
    /// A line of text emitted verbatim at the current indentation.
    pub fn new_raw(stmt: &str) -> (r: Statement)
        ensures
            r is Raw,
            r->Raw_0@ == stmt@,
    {
        Statement::Raw(stmt.to_owned())
    }

    /// The text of the statement at the outermost indentation.
    pub fn render(&self) -> (r: String)
        ensures
            r@ == lines_text(stmt_lines(*self, Seq::empty())),
    {
        let mut out = String::new();
        let pad = String::new();
        self.write_into(&mut out, pad.as_str());
        assert(out@ =~= lines_text(stmt_lines(*self, Seq::empty())));
        out
    }
}

impl From<Assignment> for Statement {
    fn from(a: Assignment) -> (r: Statement) {
        Statement::Assign(a)
    }
}

impl vstd::std_specs::convert::FromSpecImpl<Assignment> for Statement {
    open spec fn obeys_from_spec() -> bool {
        true
    }

    open spec fn from_spec(a: Assignment) -> Statement {
        Statement::Assign(a)
    }
}

impl From<FunctionDefinition> for Statement {
    fn from(f: FunctionDefinition) -> (r: Statement) {
        Statement::FuncDef(f)
    }
}

impl vstd::std_specs::convert::FromSpecImpl<FunctionDefinition> for Statement {
    open spec fn obeys_from_spec() -> bool {
        true
    }

    open spec fn from_spec(f: FunctionDefinition) -> Statement {
        Statement::FuncDef(f)
    }
}

impl From<IfElse> for Statement {
    fn from(ie: IfElse) -> (r: Statement) {
        Statement::IfElse(ie)
    }
}

impl vstd::std_specs::convert::FromSpecImpl<IfElse> for Statement {
    open spec fn obeys_from_spec() -> bool {
        true
    }

    open spec fn from_spec(ie: IfElse) -> Statement {
        Statement::IfElse(ie)
    }
}

impl From<Return> for Statement {
    fn from(r: Return) -> (s: Statement) {
        Statement::Return(r)
    }
}

impl vstd::std_specs::convert::FromSpecImpl<Return> for Statement {
    open spec fn obeys_from_spec() -> bool {
        true
    }

    open spec fn from_spec(r: Return) -> Statement {
        Statement::Return(r)
    }
}

// ---------------------------------------------------------------------------
// Laws of rendering
// ---------------------------------------------------------------------------

/// A function definition with an empty body renders as its header line and
/// exactly one more line, `pass`, indented one level deeper than the header.
pub proof fn lemma_empty_function_renders_pass(f: FunctionDefinition, pad: Seq<char>)
    requires
        f.body@.len() == 0,
    ensures
        stmt_lines(Statement::FuncDef(f), pad) == seq![
            pad + def_header(f.name@, texts(f.args@)),
            pad + indent_unit() + pass_line(),
        ],
{
    assert(stmt_lines(Statement::FuncDef(f), pad) =~= seq![
        pad + def_header(f.name@, texts(f.args@)),
        pad + indent_unit() + pass_line(),
    ]);
}

/// A conditional with an empty `else` block renders no `else:` line at all;
/// one with a non-empty `else` block renders `else:` at the indentation of the
/// `if` line, followed by the block's statements one level deeper.
pub proof fn lemma_if_else_renders_else_only_when_needed(ie: IfElse, pad: Seq<char>)
    ensures
        ie.body_else.body@.len() == 0 ==> stmt_lines(Statement::IfElse(ie), pad) == seq![
            pad + seq!['i', 'f', ' '] + expr_text(ie.condition) + seq![':'],
        ] + body_lines(ie.body_if.body@, pad + indent_unit()),
        ie.body_else.body@.len() > 0 ==> stmt_lines(Statement::IfElse(ie), pad) == seq![
            pad + seq!['i', 'f', ' '] + expr_text(ie.condition) + seq![':'],
        ] + body_lines(ie.body_if.body@, pad + indent_unit()) + seq![
            pad + seq!['e', 'l', 's', 'e', ':'],
        ] + stmts_lines(ie.body_else.body@, pad + indent_unit()),
{
    let header = seq![pad + seq!['i', 'f', ' '] + expr_text(ie.condition) + seq![':']];
    let if_part = body_lines(ie.body_if.body@, pad + indent_unit());
    if ie.body_else.body@.len() == 0 {
        assert(stmt_lines(Statement::IfElse(ie), pad) =~= header + if_part);
    } else {
        let else_line = seq![pad + seq!['e', 'l', 's', 'e', ':']];
        let else_part = stmts_lines(ie.body_else.body@, pad + indent_unit());
        assert(stmt_lines(Statement::IfElse(ie), pad) =~= header + if_part + else_line + else_part);
    }
}

} // verus!
