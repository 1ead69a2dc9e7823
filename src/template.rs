//! Compiled templates: the parsed form of quasi-quoted text, and the
//! construction of syntax-model nodes from it and substitution values.
use vstd::prelude::*;
use crate::lexer::{TemplateError, TemplateErrorKind, chars_of, lex, lex_spec};
use crate::parser::{
    Form, FormModel, Item, ItemModel, Span, ValueForm, form_view, item_view, items_view,
    span_within, spans_within, value_within, item_within, items_within, form_within, lemma_items_view_push,
    lemma_items_view_index, lemma_items_within_index, lemma_statement_within, parse_statement,
    parse_template,
};
use crate::syntax::{Block, Expression, FunctionDefinition, IfElse, Return, Statement, texts};

verus! {

/// A value supplied for a substitution point.
pub enum Substitution {
    /// An expression, for a single substitution point where a value stands.
    Value(Expression),
    /// One statement, for a single substitution point in a body.
    Statement(Statement),
    /// Statements spliced one by one into a body, for a multi substitution point.
    Statements(Vec<Statement>),
}

/// The kinds of substitution point.
#[derive(Clone, Copy, Debug, PartialEq, Eq, Structural)]
pub enum SlotKind {
    Value,
    Statement,
    Statements,
}

pub open spec fn kind_of(a: Substitution) -> SlotKind {
    match a {
        Substitution::Value(_) => SlotKind::Value,
        Substitution::Statement(_) => SlotKind::Statement,
        Substitution::Statements(_) => SlotKind::Statements,
    }
}

pub open spec fn kinds(args: Seq<Substitution>) -> Seq<SlotKind> {
    args.map_values(|a: Substitution| kind_of(a))
}

/// Whether the first values of `args` fit the substitution points `slots`, in order.
pub open spec fn fits(args: Seq<Substitution>, slots: Seq<SlotKind>) -> bool {
    slots.len() <= args.len() && kinds(args.subrange(0, slots.len() as int)) == slots
}

/// The text of the template that `sp` spans.
pub open spec fn span_text(s: Seq<char>, sp: Span) -> Seq<char> {
    s.subrange(sp.start as int, sp.end as int)
}

pub open spec fn value_slots(v: ValueForm) -> Seq<SlotKind> {
    match v {
        ValueForm::Quoted(_) => Seq::empty(),
        ValueForm::Sub(_) => seq![SlotKind::Value],
    }
}

/// The substitution points of an item, in the order of the text.
pub open spec fn item_slots(i: ItemModel) -> Seq<SlotKind>
    decreases i,
{
    match i {
        ItemModel::Quot(f) => form_slots(f),
        ItemModel::Single(_) => seq![SlotKind::Statement],
        ItemModel::Multi(_) => seq![SlotKind::Statements],
    }
}

pub open spec fn items_slots(items: Seq<ItemModel>) -> Seq<SlotKind>
    decreases items,
{
    if items.len() == 0 {
        Seq::empty()
    } else {
        items_slots(items.subrange(0, items.len() - 1)) + item_slots(items[items.len() - 1])
    }
}

/// The substitution points of a statement form, in the order of the text.
pub open spec fn form_slots(f: FormModel) -> Seq<SlotKind>
    decreases f,
{
    match f {
        FormModel::FuncDef(_, _, body) => items_slots(body),
        FormModel::IfElse(_, v, body_if, body_else) => value_slots(v) + items_slots(body_if)
            + items_slots(body_else),
        FormModel::Return(v) => value_slots(v),
    }
}

/// `e` is what the value form `v` builds from the substitution values `args`.
pub open spec fn value_built(v: ValueForm, s: Seq<char>, args: Seq<Substitution>, e: Expression) -> bool {
    match v {
        ValueForm::Quoted(sp) => args.len() == 0 && e is Literal && e->Literal_0@ == span_text(s, sp),
        ValueForm::Sub(_) => args.len() == 1 && args[0] is Value && e == args[0]->Value_0,
    }
}

/// `out` are the statements that the item `i` builds from `args`: a written
/// statement builds one, a single substitution point is its statement, and a
/// multi substitution point is its statements in order.
pub open spec fn item_built(i: ItemModel, s: Seq<char>, args: Seq<Substitution>, out: Seq<Statement>) -> bool
    decreases i,
{
    match i {
        ItemModel::Quot(f) => out.len() == 1 && form_built(f, s, args, out[0]),
        ItemModel::Single(_) => args.len() == 1 && args[0] is Statement && out == seq![
            args[0]->Statement_0,
        ],
        ItemModel::Multi(_) => args.len() == 1 && args[0] is Statements && out
            == args[0]->Statements_0@,
    }
}

/// `out` are the statements that the items build, in order, from `args`,
/// each item taking the values of its own substitution points.
pub open spec fn items_built(
    items: Seq<ItemModel>,
    s: Seq<char>,
    args: Seq<Substitution>,
    out: Seq<Statement>,
) -> bool
    decreases items,
{
    if items.len() == 0 {
        args.len() == 0 && out.len() == 0
    } else {
        let last = items[items.len() - 1];
        let k = item_slots(last).len();
        k <= args.len() && exists|m: int|
            0 <= m <= out.len() && items_built(
                items.subrange(0, items.len() - 1),
                s,
                args.subrange(0, args.len() - k),
                out.subrange(0, m),
            ) && item_built(last, s, args.subrange(args.len() - k, args.len() as int), #[trigger] out.subrange(m, out.len() as int))
    }
}

/// `st` is the statement that the form `f` builds from `args`.
pub open spec fn form_built(f: FormModel, s: Seq<char>, args: Seq<Substitution>, st: Statement) -> bool
    decreases f,
{
    match f {
        FormModel::FuncDef(name, params, body) => st is FuncDef && st->FuncDef_0.name@ == span_text(
            s,
            name,
        ) && texts(st->FuncDef_0.args@) == params.map_values(|sp: Span| span_text(s, sp))
            && items_built(body, s, args, st->FuncDef_0.body@),
        FormModel::IfElse(var, v, body_if, body_else) => {
            let kv = value_slots(v).len() as int;
            let ki = items_slots(body_if).len() as int;
            &&& st is IfElse
            &&& kv + ki <= args.len()
            &&& st->IfElse_0.condition is Equals
            &&& *st->IfElse_0.condition->Equals_0 is Variable
            &&& st->IfElse_0.condition->Equals_0->Variable_0@ == span_text(s, var)
            &&& value_built(v, s, args.subrange(0, kv), *st->IfElse_0.condition->Equals_1)
            &&& items_built(body_if, s, args.subrange(kv, kv + ki), st->IfElse_0.body_if.body@)
            &&& items_built(
                body_else,
                s,
                args.subrange(kv + ki, args.len() as int),
                st->IfElse_0.body_else.body@,
            )
        },
        FormModel::Return(v) => st is Return && value_built(v, s, args, st->Return_0.value),
    }
}

// ---------------------------------------------------------------------------
// Lemmas on substitution points
// ---------------------------------------------------------------------------

proof fn lemma_fits_concat(a: Seq<Substitution>, x: Seq<SlotKind>, y: Seq<SlotKind>)
    ensures
        fits(a, x + y) == (fits(a, x) && fits(a.subrange(x.len() as int, a.len() as int), y)),
{
    let n = x.len() as int;
    if fits(a, x + y) {
        let k = kinds(a.subrange(0, n + y.len()));
        assert(kinds(a.subrange(0, n)) =~= k.subrange(0, n));
        assert(kinds(a.subrange(n, a.len() as int).subrange(0, y.len() as int)) =~= k.subrange(n, n + y.len()));
        assert((x + y).subrange(0, n) =~= x);
        assert((x + y).subrange(n, n + y.len()) =~= y);
    }
    if fits(a, x) && fits(a.subrange(n, a.len() as int), y) {
        let k1 = kinds(a.subrange(0, n));
        let k2 = kinds(a.subrange(n, a.len() as int).subrange(0, y.len() as int));
        assert(kinds(a.subrange(0, n + y.len())) =~= k1 + k2);
    }
}

proof fn lemma_fits_prefix(a: Seq<Substitution>, full: Seq<SlotKind>, part: Seq<SlotKind>)
    requires
        part.len() <= full.len(),
        full.subrange(0, part.len() as int) == part,
        fits(a, full),
    ensures
        fits(a, part),
{
    let k = kinds(a.subrange(0, full.len() as int));
    assert(kinds(a.subrange(0, part.len() as int)) =~= k.subrange(0, part.len() as int));
}

proof fn lemma_fits_exact(a: Seq<Substitution>, slots: Seq<SlotKind>)
    ensures
        (kinds(a) == slots) == (fits(a, slots) && slots.len() == a.len()),
{
    if fits(a, slots) && slots.len() == a.len() {
        assert(a.subrange(0, a.len() as int) =~= a);
    }
    if kinds(a) == slots {
        assert(kinds(a).len() == a.len());
        assert(a.subrange(0, a.len() as int) =~= a);
    }
}

proof fn lemma_fits_empty(a: Seq<Substitution>)
    ensures
        fits(a, Seq::empty()),
        a.subrange(0, a.len() as int) == a,
{
    assert(kinds(a.subrange(0, 0)) =~= Seq::<SlotKind>::empty());
    assert(a.subrange(0, a.len() as int) =~= a);
}

proof fn lemma_items_slots_push(v: Seq<ItemModel>, y: ItemModel)
    ensures
        items_slots(v.push(y)) == items_slots(v) + item_slots(y),
{
    let w = v.push(y);
    assert(w.subrange(0, w.len() - 1) =~= v);
}

/// The slots of the first `j` items are a prefix of the slots of all items.
proof fn lemma_items_slots_prefix(v: Seq<Item>, j: int)
    requires
        0 <= j <= v.len(),
    ensures
        items_slots(items_view(v.subrange(0, j))).len() <= items_slots(items_view(v)).len(),
        items_slots(items_view(v)).subrange(0, items_slots(items_view(v.subrange(0, j))).len() as int)
            == items_slots(items_view(v.subrange(0, j))),
    decreases v.len() - j,
{
    let all = items_slots(items_view(v));
    let p = items_slots(items_view(v.subrange(0, j)));
    if j == v.len() {
        assert(v.subrange(0, j) =~= v);
        assert(all.subrange(0, all.len() as int) =~= all);
    } else {
        lemma_items_slots_prefix(v, j + 1);
        assert(v.subrange(0, j + 1) =~= v.subrange(0, j).push(v[j]));
        lemma_items_view_push(v.subrange(0, j), v[j]);
        lemma_items_slots_push(items_view(v.subrange(0, j)), item_view(v[j]));
        let q = items_slots(items_view(v.subrange(0, j + 1)));
        assert(q == p + item_slots(item_view(v[j])));
        assert(all.subrange(0, p.len() as int) =~= q.subrange(0, p.len() as int));
        assert(q.subrange(0, p.len() as int) =~= p);
    }
}

/// A mismatch at item `i` of a body is a mismatch of the whole body.
proof fn lemma_items_mismatch(a: Seq<Substitution>, v: Seq<Item>, i: int)
    requires
        0 <= i < v.len(),
        fits(a, items_slots(items_view(v.subrange(0, i)))),
        !fits(
            a.subrange(items_slots(items_view(v.subrange(0, i))).len() as int, a.len() as int),
            item_slots(item_view(v[i])),
        ),
    ensures
        !fits(a, items_slots(items_view(v))),
{
    let pre = items_slots(items_view(v.subrange(0, i)));
    let b = item_slots(item_view(v[i]));
    lemma_fits_concat(a, pre, b);
    assert(v.subrange(0, i + 1) =~= v.subrange(0, i).push(v[i]));
    lemma_items_view_push(v.subrange(0, i), v[i]);
    lemma_items_slots_push(items_view(v.subrange(0, i)), item_view(v[i]));
    lemma_items_slots_prefix(v, i + 1);
    if fits(a, items_slots(items_view(v))) {
        lemma_fits_prefix(a, items_slots(items_view(v)), pre + b);
    }
}

// ---------------------------------------------------------------------------
// Building
// ---------------------------------------------------------------------------

fn span_string(text: &str, sp: Span) -> (r: String)
    requires
        span_within(sp, text@.len()),
    ensures
        r@ == span_text(text@, sp),
{
    text.substring_char(sp.start, sp.end).to_owned()
}

fn mismatch(pos: usize) -> (e: TemplateError)
    ensures
        e.kind == TemplateErrorKind::SubstitutionMismatch,
{
    TemplateError { kind: TemplateErrorKind::SubstitutionMismatch, pos }
}

/// Takes the next substitution value, which must be of kind `want`.
fn take_arg(args: &mut Vec<Substitution>, want: SlotKind, pos: usize) -> (r: Result<Substitution, TemplateError>)
    ensures
        r is Ok <==> fits(old(args)@, seq![want]),
        r matches Ok(a) ==> a == old(args)@[0] && kind_of(a) == want && final(args)@
            == old(args)@.subrange(1, old(args)@.len() as int),
        r matches Err(e) ==> e.kind == TemplateErrorKind::SubstitutionMismatch,
{
    assert(seq![want].len() == 1);
    if args.len() == 0 {
        return Err(mismatch(pos));
    }
    let ok = match &args[0] {
        Substitution::Value(_) => want == SlotKind::Value,
        Substitution::Statement(_) => want == SlotKind::Statement,
        Substitution::Statements(_) => want == SlotKind::Statements,
    };
    assert(kinds(args@.subrange(0, 1)) =~= seq![kind_of(args@[0])]);
    if !ok {
        assert(kinds(args@.subrange(0, 1))[0] != seq![want][0]);
        return Err(mismatch(pos));
    }
    let a = args.remove(0);
    assert(args@ =~= old(args)@.subrange(1, old(args)@.len() as int));
    Ok(a)
}

fn build_value(v: ValueForm, text: &str, args: &mut Vec<Substitution>) -> (r: Result<Expression, TemplateError>)
    requires
        value_within(v, text@.len()),
    ensures
        r is Ok <==> fits(old(args)@, value_slots(v)),
        r matches Ok(e) ==> final(args)@ == old(args)@.subrange(
            value_slots(v).len() as int,
            old(args)@.len() as int,
        ) && value_built(
            v,
            text@,
            old(args)@.subrange(0, value_slots(v).len() as int),
            e,
        ),
        r matches Err(e) ==> e.kind == TemplateErrorKind::SubstitutionMismatch,
{
    match v {
        ValueForm::Quoted(sp) => {
            proof {
                lemma_fits_empty(args@);
            }
            Ok(Expression::Literal(span_string(text, sp)))
        },
        ValueForm::Sub(sp) => match take_arg(args, SlotKind::Value, sp.start) {
            Ok(Substitution::Value(e)) => {
                assert(old(args)@.subrange(0, 1) =~= seq![old(args)@[0]]);
                Ok(e)
            },
            Ok(_) => Err(mismatch(sp.start)),
            Err(e) => Err(e),
        },
    }
}

fn build_items(items: &Vec<Item>, text: &str, args: &mut Vec<Substitution>) -> (r: Result<
    Vec<Statement>,
    TemplateError,
>)
    requires
        items_within(items_view(items@), text@.len()),
    ensures
        r is Ok <==> fits(old(args)@, items_slots(items_view(items@))),
        r matches Ok(out) ==> final(args)@ == old(args)@.subrange(
            items_slots(items_view(items@)).len() as int,
            old(args)@.len() as int,
        ) && items_built(
            items_view(items@),
            text@,
            old(args)@.subrange(0, items_slots(items_view(items@)).len() as int),
            out@,
        ),
        r matches Err(e) ==> e.kind == TemplateErrorKind::SubstitutionMismatch,
    decreases items@, 0nat,
{
    let ghost a0 = args@;
    let mut out: Vec<Statement> = Vec::new();
    let mut i: usize = 0;
    proof {
        assert(items@.subrange(0, 0) =~= Seq::<Item>::empty());
        assert(items_view(items@.subrange(0, 0)) =~= Seq::<ItemModel>::empty());
        lemma_fits_empty(a0);
        assert(a0.subrange(0, 0) =~= Seq::<Substitution>::empty());
    }
    while i < items.len()
        invariant
            i <= items@.len(),
            a0 == old(args)@,
            items_within(items_view(items@), text@.len()),
            fits(a0, items_slots(items_view(items@.subrange(0, i as int)))),
            args@ == a0.subrange(
                items_slots(items_view(items@.subrange(0, i as int))).len() as int,
                a0.len() as int,
            ),
            items_built(
                items_view(items@.subrange(0, i as int)),
                text@,
                a0.subrange(0, items_slots(items_view(items@.subrange(0, i as int))).len() as int),
                out@,
            ),
        decreases items.len() - i,
    {
        let ghost pre_items = items@.subrange(0, i as int);
        let ghost pre = items_slots(items_view(pre_items));
        let ghost c = pre.len() as int;
        let ghost x = item_view(items@[i as int]);
        let ghost b = item_slots(x);
        let ghost out0 = out@;
        let ghost args0 = args@;
        proof {
            lemma_items_view_index(items@, i as int);
            lemma_items_within_index(items_view(items@), text@.len(), i as int);
        }
        let made: Result<(), TemplateError> = match &items[i] {
            Item::Quot(f) => {
                assert(decreases_to!(items@ => items@[i as int]));
                match build_form(f, text, args) {
                    Ok(st) => {
                        out.push(st);
                        assert(out@.subrange(out0.len() as int, out@.len() as int) =~= seq![st]);
                        assert(x == ItemModel::Quot(form_view(*f)));
                        assert(item_built(x, text@, args0.subrange(0, b.len() as int), out@.subrange(out0.len() as int, out@.len() as int)));
                        Ok(())
                    },
                    Err(e) => Err(e),
                }
            },
            Item::Single(sp) => match take_arg(args, SlotKind::Statement, sp.start) {
                Ok(Substitution::Statement(st)) => {
                    out.push(st);
                    assert(args0.subrange(0, 1) =~= seq![args0[0]]);
                    assert(out@.subrange(out0.len() as int, out@.len() as int) =~= seq![st]);
                    assert(item_built(x, text@, args0.subrange(0, b.len() as int), out@.subrange(out0.len() as int, out@.len() as int)));
                    Ok(())
                },
                Ok(_) => Err(mismatch(sp.start)),
                Err(e) => Err(e),
            },
            Item::Multi(sp) => match take_arg(args, SlotKind::Statements, sp.start) {
                Ok(Substitution::Statements(v)) => {
                    let ghost vs = v@;
                    let mut v = v;
                    out.append(&mut v);
                    assert(args0.subrange(0, 1) =~= seq![args0[0]]);
                    assert(out@.subrange(out0.len() as int, out@.len() as int) =~= vs);
                    assert(item_built(x, text@, args0.subrange(0, b.len() as int), out@.subrange(out0.len() as int, out@.len() as int)));
                    Ok(())
                },
                Ok(_) => Err(mismatch(sp.start)),
                Err(e) => Err(e),
            },
        };
        match made {
            Err(e) => {
                proof {
                    lemma_items_mismatch(a0, items@, i as int);
                }
                return Err(e);
            },
            Ok(()) => {},
        }
        proof {
            let next = items@.subrange(0, i as int + 1);
            assert(next =~= pre_items.push(items@[i as int]));
            lemma_items_view_push(pre_items, items@[i as int]);
            lemma_items_slots_push(items_view(pre_items), x);
            lemma_fits_concat(a0, pre, b);
            let k = b.len() as int;
            let a1 = a0.subrange(0, c + k);
            assert(a1.subrange(0, a1.len() - k) =~= a0.subrange(0, c));
            assert(a1.subrange(a1.len() - k, a1.len() as int) =~= args0.subrange(0, k));
            assert(out@.subrange(0, out0.len() as int) =~= out0);
            assert(items_view(next).subrange(0, items_view(next).len() - 1) =~= items_view(pre_items));
            assert(items_view(next)[items_view(next).len() - 1] == x);
            let m = out0.len() as int;
            assert(item_built(x, text@, a1.subrange(a1.len() - k, a1.len() as int), out@.subrange(m, out@.len() as int)));
            assert(items_built(items_view(next), text@, a1, out@));
            assert(args@ =~= a0.subrange(c + k, a0.len() as int));
        }
        i = i + 1;
    }
    assert(items@.subrange(0, items.len() as int) =~= items@);
    Ok(out)
}

fn build_def(f: &Form, text: &str, args: &mut Vec<Substitution>) -> (r: Result<Statement, TemplateError>)
    requires
        f is FuncDef,
        form_within(form_view(*f), text@.len()),
    ensures
        r is Ok <==> fits(old(args)@, form_slots(form_view(*f))),
        r matches Ok(st) ==> final(args)@ == old(args)@.subrange(
            form_slots(form_view(*f)).len() as int,
            old(args)@.len() as int,
        ) && form_built(
            form_view(*f),
            text@,
            old(args)@.subrange(0, form_slots(form_view(*f)).len() as int),
            st,
        ),
        r matches Err(e) ==> e.kind == TemplateErrorKind::SubstitutionMismatch,
    decreases f, 1nat,
{
    // Not taken: `f` is a function definition.
    let Form::FuncDef(name, params, body) = f else {
        return Err(mismatch(0));
    };
    assert(form_view(*f) == FormModel::FuncDef(*name, params@, items_view(body@)));
    let name_s = span_string(text, *name);
    let mut ps: Vec<String> = Vec::new();
    let mut j: usize = 0;
    while j < params.len()
        invariant
            j <= params@.len(),
            spans_within(params@, text@.len()),
            texts(ps@) == params@.subrange(0, j as int).map_values(|sp: Span| span_text(text@, sp)),
        decreases params.len() - j,
    {
        assert(span_within(params@[j as int], text@.len()));
        let p = span_string(text, params[j]);
        let ghost before = ps@;
        ps.push(p);
        assert(texts(ps@) =~= texts(before).push(p@));
        assert(params@.subrange(0, j as int + 1).map_values(|sp: Span| span_text(text@, sp))
            =~= params@.subrange(0, j as int).map_values(|sp: Span| span_text(text@, sp)).push(p@));
        j = j + 1;
    }
    assert(params@.subrange(0, params.len() as int) =~= params@);
    match build_items(body, text, args) {
        Ok(stmts) => Ok(Statement::FuncDef(FunctionDefinition { name: name_s, args: ps, body: stmts })),
        Err(e) => Err(e),
    }
}

fn build_if(f: &Form, text: &str, args: &mut Vec<Substitution>) -> (r: Result<Statement, TemplateError>)
    requires
        f is IfElse,
        form_within(form_view(*f), text@.len()),
    ensures
        r is Ok <==> fits(old(args)@, form_slots(form_view(*f))),
        r matches Ok(st) ==> final(args)@ == old(args)@.subrange(
            form_slots(form_view(*f)).len() as int,
            old(args)@.len() as int,
        ) && form_built(
            form_view(*f),
            text@,
            old(args)@.subrange(0, form_slots(form_view(*f)).len() as int),
            st,
        ),
        r matches Err(e) ==> e.kind == TemplateErrorKind::SubstitutionMismatch,
    decreases f, 1nat,
{
    let ghost a0 = args@;
    // Not taken: `f` is a conditional.
    let Form::IfElse(var, v, body_if, body_else) = f else {
        return Err(mismatch(0));
    };
    assert(form_view(*f) == FormModel::IfElse(*var, *v, items_view(body_if@), items_view(body_else@)));
    let ghost vs = value_slots(*v);
    let ghost is = items_slots(items_view(body_if@));
    let ghost es = items_slots(items_view(body_else@));
    proof {
        lemma_fits_concat(a0, vs + is, es);
        lemma_fits_concat(a0, vs, is);
    }
    let var_s = span_string(text, *var);
    let value = match build_value(*v, text, args) {
        Ok(e) => e,
        Err(e) => {
            return Err(e);
        },
    };
    let ghost a1 = args@;
    let s_if = match build_items(body_if, text, args) {
        Ok(s) => s,
        Err(e) => {
            return Err(e);
        },
    };
    let ghost a2 = args@;
    proof {
        assert(a2 =~= a0.subrange((vs + is).len() as int, a0.len() as int));
    }
    let s_else = match build_items(body_else, text, args) {
        Ok(s) => s,
        Err(e) => {
            return Err(e);
        },
    };
    let cond = Expression::Equals(Box::new(Expression::Variable(var_s)), Box::new(value));
    let st = Statement::IfElse(
        IfElse { condition: cond, body_if: Block { body: s_if }, body_else: Block { body: s_else } },
    );
    proof {
        let kv = vs.len() as int;
        let ki = is.len() as int;
        let ke = es.len() as int;
        let used = a0.subrange(0, kv + ki + ke);
        assert(used.subrange(0, kv) =~= a0.subrange(0, kv));
        assert(used.subrange(kv, kv + ki) =~= a1.subrange(0, ki));
        assert(used.subrange(kv + ki, used.len() as int) =~= a2.subrange(0, ke));
        assert(args@ =~= a0.subrange(kv + ki + ke, a0.len() as int));
    }
    Ok(st)
}

fn build_form(f: &Form, text: &str, args: &mut Vec<Substitution>) -> (r: Result<Statement, TemplateError>)
    requires
        form_within(form_view(*f), text@.len()),
    ensures
        r is Ok <==> fits(old(args)@, form_slots(form_view(*f))),
        r matches Ok(st) ==> final(args)@ == old(args)@.subrange(
            form_slots(form_view(*f)).len() as int,
            old(args)@.len() as int,
        ) && form_built(
            form_view(*f),
            text@,
            old(args)@.subrange(0, form_slots(form_view(*f)).len() as int),
            st,
        ),
        r matches Err(e) ==> e.kind == TemplateErrorKind::SubstitutionMismatch,
    decreases f, 2nat,
{
    match f {
        Form::FuncDef(..) => build_def(f, text, args),
        Form::IfElse(..) => build_if(f, text, args),
        Form::Return(v) => match build_value(*v, text, args) {
            Ok(e) => Ok(Statement::Return(Return { value: e })),
            Err(e) => Err(e),
        },
    }
}

// ---------------------------------------------------------------------------
// Templates
// ---------------------------------------------------------------------------

/// The form that template text compiles to, or the first error in it.
pub open spec fn compile_spec(s: Seq<char>) -> Result<FormModel, TemplateError> {
    match lex_spec(s) {
        Err(e) => Err(e),
        Ok(t) => parse_statement(t, s),
    }
}

/// Like `compile_spec`, for a template that must define a function.
pub open spec fn compile_function_spec(s: Seq<char>) -> Result<FormModel, TemplateError> {
    match compile_spec(s) {
        Ok(f) => if f is FuncDef {
            Ok(f)
        } else {
            Err(TemplateError { kind: TemplateErrorKind::NotAFunction, pos: 0 })
        },
        Err(e) => Err(e),
    }
}

/// A compiled template: its text and the statement form parsed from it.
/// It builds syntax-model nodes from substitution values, any number of times.
pub struct Template {
    text: String,
    form: Form,
}

impl Template {
    #[verifier::type_invariant]
    spec fn spans_in_text(&self) -> bool {
        form_within(form_view(self.form), self.text@.len())
    }

    /// The statement form of the template.
    pub closed spec fn model(&self) -> FormModel {
        form_view(self.form)
    }

    /// The text of the template.
    pub closed spec fn source(&self) -> Seq<char> {
        self.text@
    }

    /// Compiles template text holding one statement: a function definition,
    /// a conditional or a return.
    pub fn compile(text: &str) -> (r: Result<Template, TemplateError>)
        ensures
            r matches Ok(tp) ==> compile_spec(text@) == Ok::<FormModel, TemplateError>(tp.model())
                && tp.source() == text@,
            r matches Err(e) ==> compile_spec(text@) == Err::<FormModel, TemplateError>(e),
    {
        let toks = match lex(text) {
            Ok(t) => t,
            Err(e) => {
                return Err(e);
            },
        };
        let chars = chars_of(text);
        match parse_template(&toks, &chars) {
            Ok(form) => {
                proof {
                    lemma_statement_within(toks@, chars@);
                }
                Ok(Template { text: text.to_owned(), form })
            },
            Err(e) => Err(e),
        }
    }

    /// Compiles template text holding one function definition.
    pub fn compile_function(text: &str) -> (r: Result<Template, TemplateError>)
        ensures
            r matches Ok(tp) ==> compile_function_spec(text@) == Ok::<FormModel, TemplateError>(
                tp.model(),
            ) && tp.source() == text@,
            r matches Err(e) ==> compile_function_spec(text@) == Err::<FormModel, TemplateError>(e),
    {
        match Template::compile(text) {
            Ok(tp) => {
                if let Form::FuncDef(..) = &tp.form {
                    Ok(tp)
                } else {
                    Err(TemplateError { kind: TemplateErrorKind::NotAFunction, pos: 0 })
                }
            },
            Err(e) => Err(e),
        }
    }

    /// Builds the statement of the template, taking the substitution values
    /// in the order of the substitution points in the text. It fails when
    /// their kinds do not match the points one for one.
    pub fn build(&self, args: Vec<Substitution>) -> (r: Result<Statement, TemplateError>)
        ensures
            r is Ok <==> kinds(args@) == form_slots(self.model()),
            r matches Ok(st) ==> form_built(self.model(), self.source(), args@, st),
            r matches Err(e) ==> e.kind == TemplateErrorKind::SubstitutionMismatch || e.kind
                == TemplateErrorKind::TooManySubstitutions,
    {
        proof {
            use_type_invariant(self);
            lemma_fits_exact(args@, form_slots(self.model()));
        }
        let mut rest = args;
        match build_form(&self.form, self.text.as_str(), &mut rest) {
            Ok(st) => {
                if rest.len() > 0 {
                    Err(TemplateError { kind: TemplateErrorKind::TooManySubstitutions, pos: self.text.unicode_len() })
                } else {
                    assert(args@.subrange(0, args@.len() as int) =~= args@);
                    Ok(st)
                }
            },
            Err(e) => Err(e),
        }
    }

    /// Builds the function definition of a template compiled by
    /// `compile_function`; as `build` otherwise.
    pub fn build_function(&self, args: Vec<Substitution>) -> (r: Result<FunctionDefinition, TemplateError>)
        ensures
            r is Ok <==> self.model() is FuncDef && kinds(args@) == form_slots(self.model()),
            r matches Ok(fd) ==> form_built(self.model(), self.source(), args@, Statement::FuncDef(fd)),
    {
        proof {
            use_type_invariant(self);
        }
        if let Form::FuncDef(..) = &self.form {
            match self.build(args) {
                Ok(Statement::FuncDef(fd)) => Ok(fd),
                Ok(_) => Err(TemplateError { kind: TemplateErrorKind::NotAFunction, pos: 0 }),
                Err(e) => Err(e),
            }
        } else {
            Err(TemplateError { kind: TemplateErrorKind::NotAFunction, pos: 0 })
        }
    }
}

} // verus!
