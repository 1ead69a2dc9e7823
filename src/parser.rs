//! The intermediate form of a template, and the parser that reads it from tokens.
//!
//! Grammar, over the tokens of the lexer:
//!
//! ```text
//! item     := statement | SUBST | SUBST "*"
//! statement:= "def" WORD "(" (WORD ("," WORD)* ","?)? ")" ":" block
//!           | "if" WORD "==" value ":" block ("else" ":" block)?
//!           | "return" value
//! block    := "{" item* "}"
//! value    := STR | NUMBER | SUBST
//! ```
use vstd::prelude::*;
use crate::lexer::{Token, TokenKind, TemplateError, TemplateErrorKind, error};

verus! {

/// A range `start..end` of the template text.
#[derive(Clone, Copy, Debug, PartialEq, Eq, Structural)]
pub struct Span {
    pub start: usize,
    pub end: usize,
}

/// A value of a template: a literal quoted in the template, or a single
/// substitution point whose label spans the given range.
#[derive(Clone, Copy, Debug, PartialEq, Eq, Structural)]
pub enum ValueForm {
    Quoted(Span),
    Sub(Span),
}

/// An element of a body: a statement written in the template, a single
/// substitution point (one statement), or a multi substitution point (a
/// sequence of statements spliced in).
pub enum Item {
    Quot(Form),
    Single(Span),
    Multi(Span),
}

/// A statement written in a template.
pub enum Form {
    /// Name, parameter names, body.
    FuncDef(Span, Vec<Span>, Vec<Item>),
    /// Variable compared, value it is compared with, `if` body, `else` body.
    IfElse(Span, ValueForm, Vec<Item>, Vec<Item>),
    Return(ValueForm),
}

/// What an `Item` stands for.
pub enum ItemModel {
    Quot(FormModel),
    Single(Span),
    Multi(Span),
}

/// What a `Form` stands for.
pub enum FormModel {
    FuncDef(Span, Seq<Span>, Seq<ItemModel>),
    IfElse(Span, ValueForm, Seq<ItemModel>, Seq<ItemModel>),
    Return(ValueForm),
}

pub open spec fn item_view(i: Item) -> ItemModel
    decreases i,
{
    match i {
        Item::Quot(f) => ItemModel::Quot(form_view(f)),
        Item::Single(sp) => ItemModel::Single(sp),
        Item::Multi(sp) => ItemModel::Multi(sp),
    }
}

pub open spec fn form_view(f: Form) -> FormModel
    decreases f,
{
    match f {
        Form::FuncDef(name, args, body) => FormModel::FuncDef(name, args@, items_view(body@)),
        Form::IfElse(var, value, body_if, body_else) => FormModel::IfElse(
            var,
            value,
            items_view(body_if@),
            items_view(body_else@),
        ),
        Form::Return(v) => FormModel::Return(v),
    }
}

pub open spec fn items_view(s: Seq<Item>) -> Seq<ItemModel>
    decreases s,
{
    if s.len() == 0 {
        Seq::empty()
    } else {
        items_view(s.subrange(0, s.len() - 1)).push(item_view(s[s.len() - 1]))
    }
}

/// The keywords of the template language.
#[derive(Clone, Copy, Debug, PartialEq, Eq, Structural)]
pub enum Keyword {
    Def,
    If,
    Else,
    Return,
}

pub open spec fn keyword_text(k: Keyword) -> Seq<char> {
    match k {
        Keyword::Def => seq!['d', 'e', 'f'],
        Keyword::If => seq!['i', 'f'],
        Keyword::Else => seq!['e', 'l', 's', 'e'],
        Keyword::Return => seq!['r', 'e', 't', 'u', 'r', 'n'],
    }
}

/// The text of the token at `p`.
pub open spec fn token_text(t: Seq<Token>, s: Seq<char>, p: nat) -> Seq<char> {
    s.subrange(t[p as int].start as int, t[p as int].end as int)
}

/// Whether the token at `p` is of kind `k`.
pub open spec fn kind_at(t: Seq<Token>, p: nat, k: TokenKind) -> bool {
    p < t.len() && t[p as int].kind == k
}

/// Whether the token at `p` is the keyword `k`.
pub open spec fn keyword_at(t: Seq<Token>, s: Seq<char>, p: nat, k: Keyword) -> bool {
    kind_at(t, p, TokenKind::Word) && token_text(t, s, p) == keyword_text(k)
}

pub open spec fn span_of(tok: Token) -> Span {
    Span { start: tok.start, end: tok.end }
}

/// The error for a missing token of kind `k` at `p`.
pub open spec fn expected(t: Seq<Token>, s: Seq<char>, p: nat, k: TokenKind) -> TemplateError {
    if p < t.len() {
        TemplateError { kind: TemplateErrorKind::Expected(k), pos: t[p as int].start }
    } else {
        error(TemplateErrorKind::UnexpectedEnd, s.len())
    }
}

/// A value at `p`, and the position after it.
pub open spec fn parse_value(t: Seq<Token>, s: Seq<char>, p: nat) -> Result<(ValueForm, nat), TemplateError> {
    if kind_at(t, p, TokenKind::Str) || kind_at(t, p, TokenKind::Number) {
        Ok((ValueForm::Quoted(span_of(t[p as int])), p + 1))
    } else if kind_at(t, p, TokenKind::Subst) {
        Ok((ValueForm::Sub(span_of(t[p as int])), p + 1))
    } else {
        Err(expected(t, s, p, TokenKind::Str))
    }
}

/// The parameter names from `p` up to and including the closing `)`, and the
/// position after it.
pub open spec fn parse_args(t: Seq<Token>, s: Seq<char>, p: nat) -> Result<(Seq<Span>, nat), TemplateError>
    decreases t.len() - p,
{
    if kind_at(t, p, TokenKind::Close) {
        Ok((Seq::empty(), p + 1))
    } else if !kind_at(t, p, TokenKind::Word) {
        Err(expected(t, s, p, TokenKind::Close))
    } else if kind_at(t, p + 1, TokenKind::Close) {
        Ok((seq![span_of(t[p as int])], p + 2))
    } else if !kind_at(t, p + 1, TokenKind::Comma) {
        Err(expected(t, s, p + 1, TokenKind::Close))
    } else {
        match parse_args(t, s, p + 2) {
            Ok((rest, q)) => Ok((seq![span_of(t[p as int])] + rest, q)),
            Err(e) => Err(e),
        }
    }
}

/// One body element at `p`, and the position after it.
pub open spec fn parse_item(t: Seq<Token>, s: Seq<char>, p: nat) -> Result<(ItemModel, nat), TemplateError>
    decreases t.len() - p, 0nat,
    via parse_decreases_item
{
    if p >= t.len() {
        Err(error(TemplateErrorKind::UnexpectedEnd, s.len()))
    } else if t[p as int].kind == TokenKind::Subst {
        if kind_at(t, p + 1, TokenKind::Star) {
            Ok((ItemModel::Multi(span_of(t[p as int])), p + 2))
        } else {
            Ok((ItemModel::Single(span_of(t[p as int])), p + 1))
        }
    } else if keyword_at(t, s, p, Keyword::Def) {
        match parse_def(t, s, p + 1) {
            Ok((f, q)) => Ok((ItemModel::Quot(f), q)),
            Err(e) => Err(e),
        }
    } else if keyword_at(t, s, p, Keyword::If) {
        match parse_if(t, s, p + 1) {
            Ok((f, q)) => Ok((ItemModel::Quot(f), q)),
            Err(e) => Err(e),
        }
    } else if keyword_at(t, s, p, Keyword::Return) {
        match parse_value(t, s, p + 1) {
            Ok((v, q)) => Ok((ItemModel::Quot(FormModel::Return(v)), q)),
            Err(e) => Err(e),
        }
    } else {
        Err(TemplateError { kind: TemplateErrorKind::UnknownStatement, pos: t[p as int].start })
    }
}

/// The body elements from `p` up to (not including) the closing `}`, and
/// the position of that `}`.
pub open spec fn parse_items(t: Seq<Token>, s: Seq<char>, p: nat) -> Result<(Seq<ItemModel>, nat), TemplateError>
    decreases t.len() - p, 1nat,
{
    if p >= t.len() {
        Err(error(TemplateErrorKind::UnexpectedEnd, s.len()))
    } else if t[p as int].kind == TokenKind::RBrace {
        Ok((Seq::empty(), p))
    } else {
        match parse_item(t, s, p) {
            // Every item takes at least one token, so the guard always holds;
            // it makes the termination of the recursion evident.
            Ok((x, q)) => if p < q && q <= t.len() {
                match parse_items(t, s, q) {
                    Ok((rest, r)) => Ok((seq![x] + rest, r)),
                    Err(e) => Err(e),
                }
            } else {
                Err(error(TemplateErrorKind::UnexpectedEnd, s.len()))
            },
            Err(e) => Err(e),
        }
    }
}

/// A block `{ ... }` at `p`, and the position after its `}`.
pub open spec fn parse_block(t: Seq<Token>, s: Seq<char>, p: nat) -> Result<(Seq<ItemModel>, nat), TemplateError>
    decreases t.len() - p, 2nat,
{
    if !kind_at(t, p, TokenKind::LBrace) {
        Err(expected(t, s, p, TokenKind::LBrace))
    } else {
        match parse_items(t, s, p + 1) {
            Ok((items, q)) => Ok((items, q + 1)),
            Err(e) => Err(e),
        }
    }
}

/// A function definition whose name is at `p` (just after `def`).
pub open spec fn parse_def(t: Seq<Token>, s: Seq<char>, p: nat) -> Result<(FormModel, nat), TemplateError>
    decreases t.len() - p, 3nat,
    via parse_decreases_def
{
    if !kind_at(t, p, TokenKind::Word) {
        Err(expected(t, s, p, TokenKind::Word))
    } else if !kind_at(t, p + 1, TokenKind::Open) {
        Err(expected(t, s, p + 1, TokenKind::Open))
    } else {
        match parse_args(t, s, p + 2) {
            Err(e) => Err(e),
            Ok((args, q)) => if !kind_at(t, q, TokenKind::Colon) {
                Err(expected(t, s, q, TokenKind::Colon))
            } else {
                match parse_block(t, s, q + 1) {
                    Ok((body, r)) => Ok((FormModel::FuncDef(span_of(t[p as int]), args, body), r)),
                    Err(e) => Err(e),
                }
            },
        }
    }
}

/// A conditional whose variable is at `p` (just after `if`).
pub open spec fn parse_if(t: Seq<Token>, s: Seq<char>, p: nat) -> Result<(FormModel, nat), TemplateError>
    decreases t.len() - p, 3nat,
    via parse_decreases_if
{
    if !kind_at(t, p, TokenKind::Word) {
        Err(expected(t, s, p, TokenKind::Word))
    } else if !kind_at(t, p + 1, TokenKind::EqEq) {
        Err(expected(t, s, p + 1, TokenKind::EqEq))
    } else {
        match parse_value(t, s, p + 2) {
            Err(e) => Err(e),
            Ok((v, q)) => if !kind_at(t, q, TokenKind::Colon) {
                Err(expected(t, s, q, TokenKind::Colon))
            } else {
                match parse_block(t, s, q + 1) {
                    Err(e) => Err(e),
                    // `p < r` always holds (the `if` block follows the variable);
                    // it makes the termination of the recursion evident.
                    Ok((body_if, r)) => if p < r && keyword_at(t, s, r, Keyword::Else) {
                        if !kind_at(t, r + 1, TokenKind::Colon) {
                            Err(expected(t, s, r + 1, TokenKind::Colon))
                        } else {
                            match parse_block(t, s, r + 2) {
                                Ok((body_else, u)) => Ok(
                                    (FormModel::IfElse(span_of(t[p as int]), v, body_if, body_else), u),
                                ),
                                Err(e) => Err(e),
                            }
                        }
                    } else {
                        Ok((FormModel::IfElse(span_of(t[p as int]), v, body_if, Seq::empty()), r))
                    },
                }
            },
        }
    }
}

/// The statement that makes up a whole template.
pub open spec fn parse_statement(t: Seq<Token>, s: Seq<char>) -> Result<FormModel, TemplateError> {
    match parse_item(t, s, 0) {
        Err(e) => Err(e),
        Ok((ItemModel::Quot(f), q)) => if q >= t.len() {
            Ok(f)
        } else {
            Err(TemplateError { kind: TemplateErrorKind::TrailingInput, pos: t[q as int].start })
        },
        Ok((_, _)) => Err(TemplateError { kind: TemplateErrorKind::UnknownStatement, pos: t[0].start }),
    }
}

proof fn lemma_parse_value_advances(t: Seq<Token>, s: Seq<char>, p: nat)
    ensures
        parse_value(t, s, p) matches Ok((_, q)) ==> p < q <= t.len(),
{
}

proof fn lemma_parse_args_advances(t: Seq<Token>, s: Seq<char>, p: nat)
    ensures
        parse_args(t, s, p) matches Ok((_, q)) ==> p < q <= t.len(),
    decreases t.len() - p,
{
    if kind_at(t, p, TokenKind::Word) && !kind_at(t, p + 1, TokenKind::Close) && kind_at(
        t,
        p + 1,
        TokenKind::Comma,
    ) {
        lemma_parse_args_advances(t, s, p + 2);
    }
}

proof fn lemma_parse_items_end(t: Seq<Token>, s: Seq<char>, p: nat)
    ensures
        parse_items(t, s, p) matches Ok((_, q)) ==> q < t.len(),
    decreases t.len() - p,
{
    if p < t.len() && t[p as int].kind != TokenKind::RBrace {
        if let Ok((x, q)) = parse_item(t, s, p) {
            if p < q && q <= t.len() {
                lemma_parse_items_end(t, s, q);
            }
        }
    }
}

#[via_fn]
proof fn parse_decreases_item(t: Seq<Token>, s: Seq<char>, p: nat) {
    lemma_parse_value_advances(t, s, p + 1);
}

#[via_fn]
proof fn parse_decreases_def(t: Seq<Token>, s: Seq<char>, p: nat) {
    lemma_parse_args_advances(t, s, p + 2);
}

#[via_fn]
proof fn parse_decreases_if(t: Seq<Token>, s: Seq<char>, p: nat) {
    lemma_parse_value_advances(t, s, p + 2);
}

// ---------------------------------------------------------------------------
// The executable parser
// ---------------------------------------------------------------------------

/// `r` with `acc` put in front of the sequence it holds, if it holds one.
pub open spec fn prepend<A>(acc: Seq<A>, r: Result<(Seq<A>, nat), TemplateError>) -> Result<
    (Seq<A>, nat),
    TemplateError,
> {
    match r {
        Ok((rest, q)) => Ok((acc + rest, q)),
        Err(e) => Err(e),
    }
}

proof fn lemma_prepend_empty<A>(r: Result<(Seq<A>, nat), TemplateError>)
    ensures
        prepend(Seq::<A>::empty(), r) == r,
{
    if let Ok((rest, q)) = r {
        assert(Seq::<A>::empty() + rest =~= rest);
    }
}

proof fn lemma_prepend_twice<A>(a: Seq<A>, b: Seq<A>, r: Result<(Seq<A>, nat), TemplateError>)
    ensures
        prepend(a, prepend(b, r)) == prepend(a + b, r),
{
    if let Ok((rest, q)) = r {
        assert(a + (b + rest) =~= (a + b) + rest);
    }
}

pub proof fn lemma_items_view_push(acc: Seq<Item>, x: Item)
    ensures
        items_view(acc.push(x)) == items_view(acc).push(item_view(x)),
{
    let v = acc.push(x);
    assert(v.subrange(0, v.len() - 1) =~= acc);
}

fn unexpected_end(s: &Vec<char>) -> (r: TemplateError)
    ensures
        r == error(TemplateErrorKind::UnexpectedEnd, s@.len()),
{
    TemplateError { kind: TemplateErrorKind::UnexpectedEnd, pos: s.len() }
}

fn kind_is(t: &Vec<Token>, p: usize, k: TokenKind) -> (r: bool)
    ensures
        r == kind_at(t@, p as nat, k),
        t@.len() <= usize::MAX,
{
    let n = t.len();
    p < n && t[p].kind == k
}

fn expected_at(t: &Vec<Token>, s: &Vec<char>, p: usize, k: TokenKind) -> (r: TemplateError)
    ensures
        r == expected(t@, s@, p as nat, k),
{
    if p < t.len() {
        TemplateError { kind: TemplateErrorKind::Expected(k), pos: t[p].start }
    } else {
        unexpected_end(s)
    }
}

fn keyword_chars(k: Keyword) -> (r: Vec<char>)
    ensures
        r@ == keyword_text(k),
{
    let r = match k {
        Keyword::Def => vec!['d', 'e', 'f'],
        Keyword::If => vec!['i', 'f'],
        Keyword::Else => vec!['e', 'l', 's', 'e'],
        Keyword::Return => vec!['r', 'e', 't', 'u', 'r', 'n'],
    };
    assert(r@ =~= keyword_text(k));
    r
}

fn keyword_is(t: &Vec<Token>, s: &Vec<char>, p: usize, k: Keyword) -> (r: bool)
    requires
        crate::lexer::tokens_within(t@, s@.len()),
    ensures
        r == keyword_at(t@, s@, p as nat, k),
{
    if !kind_is(t, p, TokenKind::Word) {
        return false;
    }
    let kw = keyword_chars(k);
    let tok = t[p];
    assert(tok.start <= tok.end && tok.end <= s@.len());
    if tok.end - tok.start != kw.len() {
        assert(token_text(t@, s@, p as nat).len() != kw@.len());
        return false;
    }
    let mut j: usize = 0;
    while j < kw.len()
        invariant
            tok == t@[p as int],
            kw@ == keyword_text(k),
            tok.start <= tok.end <= s@.len(),
            tok.end - tok.start == kw@.len(),
            j <= kw@.len(),
            forall|m: int| 0 <= m < j ==> s@[tok.start + m] == kw@[m],
        decreases kw.len() - j,
    {
        if s[tok.start + j] != kw[j] {
            assert(token_text(t@, s@, p as nat)[j as int] != kw@[j as int]);
            return false;
        }
        j = j + 1;
    }
    assert(token_text(t@, s@, p as nat) =~= kw@);
    true
}

fn value_at(t: &Vec<Token>, s: &Vec<char>, p: usize) -> (r: Result<(ValueForm, usize), TemplateError>)
    ensures
        r matches Ok((v, q)) ==> parse_value(t@, s@, p as nat) == Ok::<(ValueForm, nat), TemplateError>(
            (v, q as nat),
        ),
        r matches Err(e) ==> parse_value(t@, s@, p as nat) == Err::<(ValueForm, nat), TemplateError>(e),
{
    if kind_is(t, p, TokenKind::Str) || kind_is(t, p, TokenKind::Number) {
        Ok((ValueForm::Quoted(Span { start: t[p].start, end: t[p].end }), p + 1))
    } else if kind_is(t, p, TokenKind::Subst) {
        Ok((ValueForm::Sub(Span { start: t[p].start, end: t[p].end }), p + 1))
    } else {
        Err(expected_at(t, s, p, TokenKind::Str))
    }
}

fn args_at(t: &Vec<Token>, s: &Vec<char>, p: usize) -> (r: Result<(Vec<Span>, usize), TemplateError>)
    requires
        p <= t@.len(),
    ensures
        r matches Ok((v, q)) ==> parse_args(t@, s@, p as nat) == Ok::<(Seq<Span>, nat), TemplateError>(
            (v@, q as nat),
        ),
        r matches Err(e) ==> parse_args(t@, s@, p as nat) == Err::<(Seq<Span>, nat), TemplateError>(e),
{
    let mut acc: Vec<Span> = Vec::new();
    let mut i = p;
    proof {
        lemma_prepend_empty(parse_args(t@, s@, p as nat));
    }
    loop
        invariant
            p <= i <= t@.len(),
            parse_args(t@, s@, p as nat) == prepend(acc@, parse_args(t@, s@, i as nat)),
        decreases t@.len() - i,
    {
        if kind_is(t, i, TokenKind::Close) {
            assert(acc@ + Seq::<Span>::empty() =~= acc@);
            return Ok((acc, i + 1));
        }
        if !kind_is(t, i, TokenKind::Word) {
            return Err(expected_at(t, s, i, TokenKind::Close));
        }
        let sp = Span { start: t[i].start, end: t[i].end };
        if kind_is(t, i + 1, TokenKind::Close) {
            let ghost before = acc@;
            acc.push(sp);
            assert(before + seq![sp] =~= acc@);
            return Ok((acc, i + 2));
        }
        if !kind_is(t, i + 1, TokenKind::Comma) {
            return Err(expected_at(t, s, i + 1, TokenKind::Close));
        }
        proof {
            lemma_prepend_twice(acc@, seq![sp], parse_args(t@, s@, i as nat + 2));
        }
        let ghost before = acc@;
        acc.push(sp);
        assert(before + seq![sp] =~= acc@);
        i = i + 2;
    }
}

fn item_at(t: &Vec<Token>, s: &Vec<char>, p: usize) -> (r: Result<(Item, usize), TemplateError>)
    requires
        crate::lexer::tokens_within(t@, s@.len()),
        p <= t@.len(),
    ensures
        r matches Ok((x, q)) ==> parse_item(t@, s@, p as nat) == Ok::<(ItemModel, nat), TemplateError>(
            (item_view(x), q as nat),
        ),
        r matches Err(e) ==> parse_item(t@, s@, p as nat) == Err::<(ItemModel, nat), TemplateError>(e),
    decreases t@.len() - p, 0nat,
{
    if p >= t.len() {
        return Err(unexpected_end(s));
    }
    if t[p].kind == TokenKind::Subst {
        let sp = Span { start: t[p].start, end: t[p].end };
        if kind_is(t, p + 1, TokenKind::Star) {
            return Ok((Item::Multi(sp), p + 2));
        } else {
            return Ok((Item::Single(sp), p + 1));
        }
    }
    if keyword_is(t, s, p, Keyword::Def) {
        match def_at(t, s, p + 1) {
            Ok((f, q)) => Ok((Item::Quot(f), q)),
            Err(e) => Err(e),
        }
    } else if keyword_is(t, s, p, Keyword::If) {
        match if_at(t, s, p + 1) {
            Ok((f, q)) => Ok((Item::Quot(f), q)),
            Err(e) => Err(e),
        }
    } else if keyword_is(t, s, p, Keyword::Return) {
        match value_at(t, s, p + 1) {
            Ok((v, q)) => Ok((Item::Quot(Form::Return(v)), q)),
            Err(e) => Err(e),
        }
    } else {
        Err(TemplateError { kind: TemplateErrorKind::UnknownStatement, pos: t[p].start })
    }
}

fn items_at(t: &Vec<Token>, s: &Vec<char>, p: usize) -> (r: Result<(Vec<Item>, usize), TemplateError>)
    requires
        crate::lexer::tokens_within(t@, s@.len()),
        p <= t@.len(),
    ensures
        r matches Ok((v, q)) ==> parse_items(t@, s@, p as nat) == Ok::<(Seq<ItemModel>, nat), TemplateError>(
            (items_view(v@), q as nat),
        ),
        r matches Err(e) ==> parse_items(t@, s@, p as nat) == Err::<(Seq<ItemModel>, nat), TemplateError>(e),
    decreases t@.len() - p, 1nat,
{
    let mut acc: Vec<Item> = Vec::new();
    let mut i = p;
    proof {
        lemma_prepend_empty(parse_items(t@, s@, p as nat));
        assert(items_view(acc@) =~= Seq::<ItemModel>::empty());
    }
    loop
        invariant
            crate::lexer::tokens_within(t@, s@.len()),
            p <= i <= t@.len(),
            parse_items(t@, s@, p as nat) == prepend(items_view(acc@), parse_items(t@, s@, i as nat)),
        decreases t@.len() - i,
    {
        if i >= t.len() {
            return Err(unexpected_end(s));
        }
        if t[i].kind == TokenKind::RBrace {
            assert(items_view(acc@) + Seq::<ItemModel>::empty() =~= items_view(acc@));
            return Ok((acc, i));
        }
        match item_at(t, s, i) {
            Err(e) => {
                return Err(e);
            },
            Ok((x, q)) => {
                if i < q && q <= t.len() {
                    proof {
                        lemma_prepend_twice(
                            items_view(acc@),
                            seq![item_view(x)],
                            parse_items(t@, s@, q as nat),
                        );
                        lemma_items_view_push(acc@, x);
                        assert(items_view(acc@) + seq![item_view(x)] =~= items_view(acc@).push(
                            item_view(x),
                        ));
                    }
                    acc.push(x);
                    i = q;
                } else {
                    return Err(unexpected_end(s));
                }
            },
        }
    }
}

fn block_at(t: &Vec<Token>, s: &Vec<char>, p: usize) -> (r: Result<(Vec<Item>, usize), TemplateError>)
    requires
        crate::lexer::tokens_within(t@, s@.len()),
        p <= t@.len(),
    ensures
        r matches Ok((v, q)) ==> parse_block(t@, s@, p as nat) == Ok::<(Seq<ItemModel>, nat), TemplateError>(
            (items_view(v@), q as nat),
        ),
        r matches Err(e) ==> parse_block(t@, s@, p as nat) == Err::<(Seq<ItemModel>, nat), TemplateError>(e),
    decreases t@.len() - p, 2nat,
{
    if !kind_is(t, p, TokenKind::LBrace) {
        return Err(expected_at(t, s, p, TokenKind::LBrace));
    }
    proof {
        lemma_parse_items_end(t@, s@, p as nat + 1);
    }
    match items_at(t, s, p + 1) {
        Ok((items, q)) => {
            Ok((items, q + 1))
        },
        Err(e) => Err(e),
    }
}

fn def_at(t: &Vec<Token>, s: &Vec<char>, p: usize) -> (r: Result<(Form, usize), TemplateError>)
    requires
        crate::lexer::tokens_within(t@, s@.len()),
        p <= t@.len(),
    ensures
        r matches Ok((f, q)) ==> parse_def(t@, s@, p as nat) == Ok::<(FormModel, nat), TemplateError>(
            (form_view(f), q as nat),
        ),
        r matches Err(e) ==> parse_def(t@, s@, p as nat) == Err::<(FormModel, nat), TemplateError>(e),
    decreases t@.len() - p, 3nat,
{
    if !kind_is(t, p, TokenKind::Word) {
        return Err(expected_at(t, s, p, TokenKind::Word));
    }
    if !kind_is(t, p + 1, TokenKind::Open) {
        return Err(expected_at(t, s, p + 1, TokenKind::Open));
    }
    let name = Span { start: t[p].start, end: t[p].end };
    proof {
        lemma_parse_args_advances(t@, s@, p as nat + 2);
    }
    match args_at(t, s, p + 2) {
        Err(e) => Err(e),
        Ok((args, q)) => {
            if !kind_is(t, q, TokenKind::Colon) {
                return Err(expected_at(t, s, q, TokenKind::Colon));
            }
            match block_at(t, s, q + 1) {
                Ok((body, r)) => Ok((Form::FuncDef(name, args, body), r)),
                Err(e) => Err(e),
            }
        },
    }
}

fn if_at(t: &Vec<Token>, s: &Vec<char>, p: usize) -> (r: Result<(Form, usize), TemplateError>)
    requires
        crate::lexer::tokens_within(t@, s@.len()),
        p <= t@.len(),
    ensures
        r matches Ok((f, q)) ==> parse_if(t@, s@, p as nat) == Ok::<(FormModel, nat), TemplateError>(
            (form_view(f), q as nat),
        ),
        r matches Err(e) ==> parse_if(t@, s@, p as nat) == Err::<(FormModel, nat), TemplateError>(e),
    decreases t@.len() - p, 3nat,
{
    if !kind_is(t, p, TokenKind::Word) {
        return Err(expected_at(t, s, p, TokenKind::Word));
    }
    if !kind_is(t, p + 1, TokenKind::EqEq) {
        return Err(expected_at(t, s, p + 1, TokenKind::EqEq));
    }
    let var = Span { start: t[p].start, end: t[p].end };
    proof {
        lemma_parse_value_advances(t@, s@, p as nat + 2);
    }
    match value_at(t, s, p + 2) {
        Err(e) => Err(e),
        Ok((v, q)) => {
            if !kind_is(t, q, TokenKind::Colon) {
                return Err(expected_at(t, s, q, TokenKind::Colon));
            }
            match block_at(t, s, q + 1) {
                Err(e) => Err(e),
                Ok((body_if, r)) => {
                    if p < r && keyword_is(t, s, r, Keyword::Else) {
                        if !kind_is(t, r + 1, TokenKind::Colon) {
                            return Err(expected_at(t, s, r + 1, TokenKind::Colon));
                        }
                        match block_at(t, s, r + 2) {
                            Ok((body_else, u)) => Ok((Form::IfElse(var, v, body_if, body_else), u)),
                            Err(e) => Err(e),
                        }
                    } else {
                        let empty: Vec<Item> = Vec::new();
                        assert(items_view(empty@) =~= Seq::<ItemModel>::empty());
                        Ok((Form::IfElse(var, v, body_if, empty), r))
                    }
                },
            }
        },
    }
}

/// Parses the tokens of a whole template, which must be one statement.
pub fn parse_template(t: &Vec<Token>, s: &Vec<char>) -> (r: Result<Form, TemplateError>)
    requires
        crate::lexer::tokens_within(t@, s@.len()),
    ensures
        r matches Ok(f) ==> parse_statement(t@, s@) == Ok::<FormModel, TemplateError>(form_view(f)),
        r matches Err(e) ==> parse_statement(t@, s@) == Err::<FormModel, TemplateError>(e),
{
    match item_at(t, s, 0) {
        Err(e) => Err(e),
        Ok((Item::Quot(f), q)) => {
            if q >= t.len() {
                Ok(f)
            } else {
                Err(TemplateError { kind: TemplateErrorKind::TrailingInput, pos: t[q].start })
            }
        },
        Ok((_, _)) => Err(TemplateError { kind: TemplateErrorKind::UnknownStatement, pos: t[0].start }),
    }
}

// ---------------------------------------------------------------------------
// Every span of a parse lies within the text
// ---------------------------------------------------------------------------

pub open spec fn span_within(sp: Span, n: nat) -> bool {
    sp.start <= sp.end && sp.end <= n
}

pub open spec fn spans_within(sps: Seq<Span>, n: nat) -> bool {
    forall|j: int| 0 <= j < sps.len() ==> #[trigger] span_within(sps[j], n)
}

pub open spec fn value_within(v: ValueForm, n: nat) -> bool {
    match v {
        ValueForm::Quoted(sp) => span_within(sp, n),
        ValueForm::Sub(sp) => span_within(sp, n),
    }
}

pub open spec fn item_within(i: ItemModel, n: nat) -> bool
    decreases i,
{
    match i {
        ItemModel::Quot(f) => form_within(f, n),
        ItemModel::Single(sp) => span_within(sp, n),
        ItemModel::Multi(sp) => span_within(sp, n),
    }
}

pub open spec fn items_within(items: Seq<ItemModel>, n: nat) -> bool
    decreases items,
{
    if items.len() == 0 {
        true
    } else {
        items_within(items.subrange(0, items.len() - 1), n) && item_within(items[items.len() - 1], n)
    }
}

pub proof fn lemma_items_within_concat(a: Seq<ItemModel>, b: Seq<ItemModel>, n: nat)
    ensures
        items_within(a + b, n) == (items_within(a, n) && items_within(b, n)),
    decreases b.len(),
{
    if b.len() == 0 {
        assert(a + b =~= a);
    } else {
        let c = a + b;
        assert(c.subrange(0, c.len() - 1) =~= a + b.subrange(0, b.len() - 1));
        assert(c[c.len() - 1] == b[b.len() - 1]);
        lemma_items_within_concat(a, b.subrange(0, b.len() - 1), n);
    }
}

pub proof fn lemma_items_view_index(v: Seq<Item>, j: int)
    requires
        0 <= j < v.len(),
    ensures
        items_view(v).len() == v.len(),
        items_view(v)[j] == item_view(v[j]),
    decreases v.len(),
{
    lemma_items_view_len(v);
    if j < v.len() - 1 {
        assert(v.subrange(0, v.len() - 1)[j] == v[j]);
        lemma_items_view_index(v.subrange(0, v.len() - 1), j);
    }
}

pub proof fn lemma_items_view_len(v: Seq<Item>)
    ensures
        items_view(v).len() == v.len(),
    decreases v.len(),
{
    if v.len() > 0 {
        lemma_items_view_len(v.subrange(0, v.len() - 1));
    }
}

pub proof fn lemma_items_within_index(items: Seq<ItemModel>, n: nat, j: int)
    requires
        items_within(items, n),
        0 <= j < items.len(),
    ensures
        item_within(items[j], n),
    decreases items.len(),
{
    if j < items.len() - 1 {
        assert(items.subrange(0, items.len() - 1)[j] == items[j]);
        lemma_items_within_index(items.subrange(0, items.len() - 1), n, j);
    }
}

pub open spec fn form_within(f: FormModel, n: nat) -> bool
    decreases f,
{
    match f {
        FormModel::FuncDef(name, args, body) => span_within(name, n) && spans_within(args, n)
            && items_within(body, n),
        FormModel::IfElse(var, v, body_if, body_else) => span_within(var, n) && value_within(v, n)
            && items_within(body_if, n) && items_within(body_else, n),
        FormModel::Return(v) => value_within(v, n),
    }
}

proof fn lemma_value_within(t: Seq<Token>, s: Seq<char>, p: nat)
    requires
        crate::lexer::tokens_within(t, s.len()),
    ensures
        parse_value(t, s, p) matches Ok((v, _)) ==> value_within(v, s.len()),
{
}

proof fn lemma_args_within(t: Seq<Token>, s: Seq<char>, p: nat)
    requires
        crate::lexer::tokens_within(t, s.len()),
    ensures
        parse_args(t, s, p) matches Ok((a, _)) ==> forall|j: int|
            0 <= j < a.len() ==> #[trigger] span_within(a[j], s.len()),
    decreases t.len() - p,
{
    if kind_at(t, p, TokenKind::Word) && !kind_at(t, p + 1, TokenKind::Close) && kind_at(
        t,
        p + 1,
        TokenKind::Comma,
    ) {
        lemma_args_within(t, s, p + 2);
        if let Ok((rest, q)) = parse_args(t, s, p + 2) {
            let a = seq![span_of(t[p as int])] + rest;
            assert forall|j: int| 0 <= j < a.len() implies #[trigger] span_within(a[j], s.len()) by {
                if j > 0 {
                    assert(a[j] == rest[j - 1]);
                }
            }
        }
    }
}

proof fn lemma_item_within(t: Seq<Token>, s: Seq<char>, p: nat)
    requires
        crate::lexer::tokens_within(t, s.len()),
    ensures
        parse_item(t, s, p) matches Ok((x, _)) ==> item_within(x, s.len()),
    decreases t.len() - p, 0nat,
{
    if p < t.len() && t[p as int].kind != TokenKind::Subst {
        if keyword_at(t, s, p, Keyword::Def) {
            lemma_parse_args_advances(t, s, p + 3);
            lemma_def_within(t, s, p + 1);
        } else if keyword_at(t, s, p, Keyword::If) {
            lemma_if_within(t, s, p + 1);
        } else if keyword_at(t, s, p, Keyword::Return) {
            lemma_value_within(t, s, p + 1);
        }
    }
}

proof fn lemma_items_within(t: Seq<Token>, s: Seq<char>, p: nat)
    requires
        crate::lexer::tokens_within(t, s.len()),
    ensures
        parse_items(t, s, p) matches Ok((xs, _)) ==> items_within(xs, s.len()),
    decreases t.len() - p, 1nat,
{
    if p < t.len() && t[p as int].kind != TokenKind::RBrace {
        lemma_item_within(t, s, p);
        if let Ok((x, q)) = parse_item(t, s, p) {
            if p < q && q <= t.len() {
                lemma_items_within(t, s, q);
                if let Ok((rest, r)) = parse_items(t, s, q) {
                    lemma_items_within_concat(seq![x], rest, s.len());
                    assert(seq![x].subrange(0, 0) =~= Seq::<ItemModel>::empty());
                    assert(items_within(Seq::<ItemModel>::empty(), s.len()));
                    assert(item_within(x, s.len()));
                    assert(items_within(seq![x], s.len()));
                }
            }
        }
    }
}

proof fn lemma_block_within(t: Seq<Token>, s: Seq<char>, p: nat)
    requires
        crate::lexer::tokens_within(t, s.len()),
    ensures
        parse_block(t, s, p) matches Ok((xs, _)) ==> items_within(xs, s.len()),
    decreases t.len() - p, 2nat,
{
    if kind_at(t, p, TokenKind::LBrace) {
        lemma_items_within(t, s, p + 1);
    }
}

proof fn lemma_def_within(t: Seq<Token>, s: Seq<char>, p: nat)
    requires
        crate::lexer::tokens_within(t, s.len()),
    ensures
        parse_def(t, s, p) matches Ok((f, _)) ==> form_within(f, s.len()),
    decreases t.len() - p, 3nat,
{
    if kind_at(t, p, TokenKind::Word) && kind_at(t, p + 1, TokenKind::Open) {
        lemma_args_within(t, s, p + 2);
        lemma_parse_args_advances(t, s, p + 2);
        if let Ok((args, q)) = parse_args(t, s, p + 2) {
            if kind_at(t, q, TokenKind::Colon) {
                lemma_block_within(t, s, q + 1);
            }
        }
    }
}

proof fn lemma_if_within(t: Seq<Token>, s: Seq<char>, p: nat)
    requires
        crate::lexer::tokens_within(t, s.len()),
    ensures
        parse_if(t, s, p) matches Ok((f, _)) ==> form_within(f, s.len()),
    decreases t.len() - p, 3nat,
{
    if kind_at(t, p, TokenKind::Word) && kind_at(t, p + 1, TokenKind::EqEq) {
        lemma_value_within(t, s, p + 2);
        lemma_parse_value_advances(t, s, p + 2);
        if let Ok((v, q)) = parse_value(t, s, p + 2) {
            if kind_at(t, q, TokenKind::Colon) {
                lemma_block_within(t, s, q + 1);
                if let Ok((body_if, r)) = parse_block(t, s, q + 1) {
                    if p < r && keyword_at(t, s, r, Keyword::Else) && kind_at(t, r + 1, TokenKind::Colon) {
                        lemma_block_within(t, s, r + 2);
                    }
                }
            }
        }
    }
}

/// Every span of a parsed template lies within the template text.
pub proof fn lemma_statement_within(t: Seq<Token>, s: Seq<char>)
    requires
        crate::lexer::tokens_within(t, s.len()),
    ensures
        parse_statement(t, s) matches Ok(f) ==> form_within(f, s.len()),
{
    lemma_item_within(t, s, 0);
}

} // verus!
