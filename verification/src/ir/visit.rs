//! Every expression in a piece of the program, at any depth, in source order.

use super::model;
use super::model::{Expr, Key, Prop, Stmt, Target};
use super::{AssignTarget, Expression, ObjectProperty, PropertyKey, Statement};
use vstd::prelude::*;

verus! {

/// The models of the expressions that were visited.
pub open spec fn seen(s: Seq<&Expression>) -> Seq<Expr> {
    s.map_values(|e: &Expression| e@)
}

proof fn lemma_add_assoc<A>(a: Seq<A>, b: Seq<A>, c: Seq<A>)
    ensures
        (a + b) + c == a + (b + c),
{
    assert((a + b) + c =~= a + (b + c));
}

fn put<'a>(out: &mut Vec<&'a Expression>, e: &'a Expression)
    ensures
        seen(final(out)@) == seen(old(out)@) + seq![e@],
{
    out.push(e);
    assert(seen(out@) =~= seen(old(out)@) + seq![e@]);
}

/// Every expression in `e`, itself first, in source order.
pub open spec fn expr_visits(e: Expr) -> Seq<Expr>
    decreases e,
{
    seq![e] + (match e {
        Expr::Value(_) => Seq::empty(),
        Expr::Binary { left, right, .. } => expr_visits(*left) + expr_visits(*right),
        Expr::Unary { operand, .. } => expr_visits(*operand),
        Expr::Conditional { condition, then_expr, else_expr } => expr_visits(*condition) + expr_visits(*then_expr) + expr_visits(*else_expr),
        Expr::Member { object, property, .. } => expr_visits(*object) + key_visits(property),
        Expr::Call { callee, arguments } => expr_visits(*callee) + exprs_visits(arguments),
        Expr::New { callee, arguments } => expr_visits(*callee) + exprs_visits(arguments),
        Expr::Array { elements } => elements_visits(elements),
        Expr::Object { properties } => props_visits(properties),
        Expr::Function { .. } => Seq::empty(),
        Expr::Assignment { target, value } => expr_visits(*target) + expr_visits(*value),
        Expr::Spread(x) => expr_visits(*x),
        Expr::TemplateLiteral { expressions, .. } => exprs_visits(expressions),
        Expr::RegExp { .. } => Seq::empty(),
        Expr::Yield { value, .. } => expr_visits(*value),
        Expr::Await(x) => expr_visits(*x),
        Expr::JSXElement { attributes, children, .. } => attrs_visits(attributes) + exprs_visits(children),
        Expr::Unknown { .. } => Seq::empty(),
    })
}

/// Every expression in a property key.
pub open spec fn key_visits(e: Key) -> Seq<Expr>
    decreases e,
{
    match e {
        Key::Ident(_) => Seq::empty(),
        Key::String(_) => Seq::empty(),
        Key::Index(_) => Seq::empty(),
        Key::Computed(x) => expr_visits(*x),
    }
}

/// Every expression in an assignment target.
pub open spec fn target_visits(e: Target) -> Seq<Expr>
    decreases e,
{
    match e {
        Target::Register(_) => Seq::empty(),
        Target::Variable(_) => Seq::empty(),
        Target::Member { object, .. } => expr_visits(object),
        Target::Index { object, key } => expr_visits(object) + expr_visits(key),
        Target::DestructuringArray(x) => slots_visits(x),
        Target::DestructuringArrayRest { elements, rest } => slots_visits(elements) + target_visits(*rest),
        Target::DestructuringObject(x) => fields_visits(x),
        Target::DestructuringObjectRest { properties, rest } => fields_visits(properties) + target_visits(*rest),
    }
}

/// Every expression in a statement, nested bodies included, in source order.
pub open spec fn stmt_visits(e: Stmt) -> Seq<Expr>
    decreases e,
{
    match e {
        Stmt::Expr(x) => expr_visits(x),
        Stmt::Let { value, .. } => expr_visits(value),
        Stmt::Assign { target, value } => target_visits(target) + expr_visits(value),
        Stmt::Return(x) => opt_expr_visits(x),
        Stmt::Throw(x) => expr_visits(x),
        Stmt::If { condition, then_body, else_body } => expr_visits(condition) + stmts_visits(then_body) + stmts_visits(else_body),
        Stmt::While { condition, body } => expr_visits(condition) + stmts_visits(body),
        Stmt::DoWhile { body, condition } => stmts_visits(body) + expr_visits(condition),
        Stmt::For { init, condition, update, body } => opt_stmt_visits(init)
            + opt_expr_visits(condition)
            + opt_stmt_visits(update)
            + stmts_visits(body),
        Stmt::ForIn { object, body, .. } => expr_visits(object) + stmts_visits(body),
        Stmt::ForOf { iterable, body, .. } => expr_visits(iterable) + stmts_visits(body),
        Stmt::Block(x) => stmts_visits(x),
        Stmt::TryCatch { try_body, catch_body, finally_body, .. } => stmts_visits(try_body) + stmts_visits(catch_body) + stmts_visits(finally_body),
        Stmt::Switch { discriminant, cases, default } => expr_visits(discriminant) + cases_visits(cases) + opt_stmts_visits(default),
        Stmt::Class { super_class, .. } => opt_expr_visits(super_class),
        Stmt::Comment(_) => Seq::empty(),
        Stmt::Break(_) => Seq::empty(),
        Stmt::Continue(_) => Seq::empty(),
    }
}

/// Every expression in an optional expression.
pub open spec fn opt_expr_visits(o: Option<Expr>) -> Seq<Expr>
    decreases o,
{
    match o {
        Some(x) => expr_visits(x),
        None => Seq::empty(),
    }
}

/// Every expression in a list of expressions.
pub open spec fn exprs_visits(s: Seq<Expr>) -> Seq<Expr>
    decreases s,
{
    if s.len() == 0 {
        Seq::empty()
    } else {
        exprs_visits(s.drop_last()) + expr_visits(s.last())
    }
}

/// Every expression in array elements.
pub open spec fn elements_visits(s: Seq<Option<Expr>>) -> Seq<Expr>
    decreases s,
{
    if s.len() == 0 {
        Seq::empty()
    } else {
        elements_visits(s.drop_last()) + opt_expr_visits(s.last())
    }
}

/// Every expression in object properties.
pub open spec fn props_visits(s: Seq<Prop>) -> Seq<Expr>
    decreases s,
{
    if s.len() == 0 {
        Seq::empty()
    } else {
        props_visits(s.drop_last()) + key_visits(s.last().key) + expr_visits(s.last().value)
    }
}

/// Every expression in named attributes.
pub open spec fn attrs_visits(s: Seq<(Seq<char>, Expr)>) -> Seq<Expr>
    decreases s,
{
    if s.len() == 0 {
        Seq::empty()
    } else {
        attrs_visits(s.drop_last()) + expr_visits(s.last().1)
    }
}

/// Every expression in one element of an array pattern.
pub open spec fn slot_visits(o: Option<(Target, Option<Expr>)>) -> Seq<Expr>
    decreases o,
{
    match o {
        Some(p) => target_visits(p.0) + opt_expr_visits(p.1),
        None => Seq::empty(),
    }
}

/// Every expression in the elements of an array pattern.
pub open spec fn slots_visits(s: Seq<Option<(Target, Option<Expr>)>>) -> Seq<Expr>
    decreases s,
{
    if s.len() == 0 {
        Seq::empty()
    } else {
        slots_visits(s.drop_last()) + slot_visits(s.last())
    }
}

/// Every expression in the fields of an object pattern.
pub open spec fn fields_visits(s: Seq<(Seq<char>, Target, Option<Expr>)>) -> Seq<Expr>
    decreases s,
{
    if s.len() == 0 {
        Seq::empty()
    } else {
        fields_visits(s.drop_last()) + target_visits(s.last().1) + opt_expr_visits(s.last().2)
    }
}

/// Every expression in a list of statements.
pub open spec fn stmts_visits(s: Seq<Stmt>) -> Seq<Expr>
    decreases s,
{
    if s.len() == 0 {
        Seq::empty()
    } else {
        stmts_visits(s.drop_last()) + stmt_visits(s.last())
    }
}

/// Every expression in an optional statement.
pub open spec fn opt_stmt_visits(o: Option<Box<Stmt>>) -> Seq<Expr>
    decreases o,
{
    match o {
        Some(x) => stmt_visits(*x),
        None => Seq::empty(),
    }
}

/// Every expression in an optional body.
pub open spec fn opt_stmts_visits(o: Option<Seq<Stmt>>) -> Seq<Expr>
    decreases o,
{
    match o {
        Some(x) => stmts_visits(x),
        None => Seq::empty(),
    }
}

/// Every expression in the arms of a `switch`.
pub open spec fn cases_visits(s: Seq<(Expr, Seq<Stmt>)>) -> Seq<Expr>
    decreases s,
{
    if s.len() == 0 {
        Seq::empty()
    } else {
        cases_visits(s.drop_last()) + expr_visits(s.last().0) + stmts_visits(s.last().1)
    }
}

pub fn visit_expr<'a>(e: &'a Expression, out: &mut Vec<&'a Expression>)
    ensures
        seen(final(out)@) == seen(old(out)@) + expr_visits(e@),
    decreases e,
{
    let ghost first = seen(out@);
    put(out, e);
    let ghost before = seen(out@);
    match e {
        Expression::Value(_) => {
            assert(before + Seq::<Expr>::empty() =~= before);
        },
        Expression::Binary { left, right, .. } => {
            visit_expr(left, out);
            visit_expr(right, out);
            proof {
                lemma_add_assoc(
                    before,
                    expr_visits(left@),
                    expr_visits(right@),
                );
            }
        },
        Expression::Unary { operand, .. } => {
            visit_expr(operand, out);
        },
        Expression::Conditional { condition, then_expr, else_expr } => {
            visit_expr(condition, out);
            visit_expr(then_expr, out);
            visit_expr(else_expr, out);
            proof {
                lemma_add_assoc(
                    before,
                    expr_visits(condition@),
                    expr_visits(then_expr@),
                );
                lemma_add_assoc(
                    before,
                    expr_visits(condition@) + expr_visits(then_expr@),
                    expr_visits(else_expr@),
                );
            }
        },
        Expression::Member { object, property, .. } => {
            visit_expr(object, out);
            visit_key(property, out);
            proof {
                lemma_add_assoc(
                    before,
                    expr_visits(object@),
                    key_visits(property@),
                );
            }
        },
        Expression::Call { callee, arguments } => {
            visit_expr(callee, out);
            visit_exprs(arguments, out);
            proof {
                lemma_add_assoc(
                    before,
                    expr_visits(callee@),
                    exprs_visits(model::exprs(arguments@)),
                );
            }
        },
        Expression::New { callee, arguments } => {
            visit_expr(callee, out);
            visit_exprs(arguments, out);
            proof {
                lemma_add_assoc(
                    before,
                    expr_visits(callee@),
                    exprs_visits(model::exprs(arguments@)),
                );
            }
        },
        Expression::Array { elements } => {
            visit_elements(elements, out);
        },
        Expression::Object { properties } => {
            visit_props(properties, out);
        },
        Expression::Function { .. } => {
            assert(before + Seq::<Expr>::empty() =~= before);
        },
        Expression::Assignment { target, value } => {
            visit_expr(target, out);
            visit_expr(value, out);
            proof {
                lemma_add_assoc(
                    before,
                    expr_visits(target@),
                    expr_visits(value@),
                );
            }
        },
        Expression::Spread(x) => {
            visit_expr(x, out);
        },
        Expression::TemplateLiteral { expressions, .. } => {
            visit_exprs(expressions, out);
        },
        Expression::RegExp { .. } => {
            assert(before + Seq::<Expr>::empty() =~= before);
        },
        Expression::Yield { value, .. } => {
            visit_expr(value, out);
        },
        Expression::Await(x) => {
            visit_expr(x, out);
        },
        Expression::JSXElement { attributes, children, .. } => {
            visit_attrs(attributes, out);
            visit_exprs(children, out);
            proof {
                lemma_add_assoc(
                    before,
                    attrs_visits(model::attrs(attributes@)),
                    exprs_visits(model::exprs(children@)),
                );
            }
        },
        Expression::Unknown { .. } => {
            assert(before + Seq::<Expr>::empty() =~= before);
        },
    }
    assert(seen(out@) =~= first + expr_visits(e@));
}

pub fn visit_key<'a>(e: &'a PropertyKey, out: &mut Vec<&'a Expression>)
    ensures
        seen(final(out)@) == seen(old(out)@) + key_visits(e@),
    decreases e,
{
    let ghost before = seen(out@);
    match e {
        PropertyKey::Ident(_) => {
            assert(before + Seq::<Expr>::empty() =~= before);
        },
        PropertyKey::String(_) => {
            assert(before + Seq::<Expr>::empty() =~= before);
        },
        PropertyKey::Index(_) => {
            assert(before + Seq::<Expr>::empty() =~= before);
        },
        PropertyKey::Computed(x) => {
            visit_expr(x, out);
        },
    }
}

pub fn visit_target<'a>(e: &'a AssignTarget, out: &mut Vec<&'a Expression>)
    ensures
        seen(final(out)@) == seen(old(out)@) + target_visits(e@),
    decreases e,
{
    let ghost before = seen(out@);
    match e {
        AssignTarget::Register(_) => {
            assert(before + Seq::<Expr>::empty() =~= before);
        },
        AssignTarget::Variable(_) => {
            assert(before + Seq::<Expr>::empty() =~= before);
        },
        AssignTarget::Member { object, .. } => {
            visit_expr(object, out);
        },
        AssignTarget::Index { object, key } => {
            visit_expr(object, out);
            visit_expr(key, out);
            proof {
                lemma_add_assoc(
                    before,
                    expr_visits(object@),
                    expr_visits(key@),
                );
            }
        },
        AssignTarget::DestructuringArray(x) => {
            visit_slots(x, out);
        },
        AssignTarget::DestructuringArrayRest { elements, rest } => {
            visit_slots(elements, out);
            visit_target(rest, out);
            proof {
                lemma_add_assoc(
                    before,
                    slots_visits(model::slots(elements@)),
                    target_visits(rest@),
                );
            }
        },
        AssignTarget::DestructuringObject(x) => {
            visit_fields(x, out);
        },
        AssignTarget::DestructuringObjectRest { properties, rest } => {
            visit_fields(properties, out);
            visit_target(rest, out);
            proof {
                lemma_add_assoc(
                    before,
                    fields_visits(model::fields(properties@)),
                    target_visits(rest@),
                );
            }
        },
    }
}

pub fn visit_stmt<'a>(e: &'a Statement, out: &mut Vec<&'a Expression>)
    ensures
        seen(final(out)@) == seen(old(out)@) + stmt_visits(e@),
    decreases e,
{
    let ghost before = seen(out@);
    match e {
        Statement::Expr(x) => {
            visit_expr(x, out);
        },
        Statement::Let { value, .. } => {
            visit_expr(value, out);
        },
        Statement::Assign { target, value } => {
            visit_target(target, out);
            visit_expr(value, out);
            proof {
                lemma_add_assoc(
                    before,
                    target_visits(target@),
                    expr_visits(value@),
                );
            }
        },
        Statement::Return(x) => {
            visit_opt_expr(x, out);
        },
        Statement::Throw(x) => {
            visit_expr(x, out);
        },
        Statement::If { condition, then_body, else_body } => {
            visit_expr(condition, out);
            visit_stmts(then_body, out);
            visit_stmts(else_body, out);
            proof {
                lemma_add_assoc(
                    before,
                    expr_visits(condition@),
                    stmts_visits(model::stmts(then_body@)),
                );
                lemma_add_assoc(
                    before,
                    expr_visits(condition@) + stmts_visits(model::stmts(then_body@)),
                    stmts_visits(model::stmts(else_body@)),
                );
            }
        },
        Statement::While { condition, body } => {
            visit_expr(condition, out);
            visit_stmts(body, out);
            proof {
                lemma_add_assoc(
                    before,
                    expr_visits(condition@),
                    stmts_visits(model::stmts(body@)),
                );
            }
        },
        Statement::DoWhile { body, condition } => {
            visit_stmts(body, out);
            visit_expr(condition, out);
            proof {
                lemma_add_assoc(
                    before,
                    stmts_visits(model::stmts(body@)),
                    expr_visits(condition@),
                );
            }
        },
        Statement::For { init, condition, update, body } => {
            visit_opt_stmt(init, out);
            visit_opt_expr(condition, out);
            visit_opt_stmt(update, out);
            visit_stmts(body, out);
            proof {
                lemma_add_assoc(
                    before,
                    opt_stmt_visits(model::opt_stmt(*init)),
                    opt_expr_visits(model::opt_expr(*condition)),
                );
                lemma_add_assoc(
                    before,
                    opt_stmt_visits(model::opt_stmt(*init)) + opt_expr_visits(model::opt_expr(*condition)),
                    opt_stmt_visits(model::opt_stmt(*update)),
                );
                lemma_add_assoc(
                    before,
                    opt_stmt_visits(model::opt_stmt(*init)) + opt_expr_visits(model::opt_expr(*condition)) + opt_stmt_visits(model::opt_stmt(*update)),
                    stmts_visits(model::stmts(body@)),
                );
            }
        },
        Statement::ForIn { object, body, .. } => {
            visit_expr(object, out);
            visit_stmts(body, out);
            proof {
                lemma_add_assoc(
                    before,
                    expr_visits(object@),
                    stmts_visits(model::stmts(body@)),
                );
            }
        },
        Statement::ForOf { iterable, body, .. } => {
            visit_expr(iterable, out);
            visit_stmts(body, out);
            proof {
                lemma_add_assoc(
                    before,
                    expr_visits(iterable@),
                    stmts_visits(model::stmts(body@)),
                );
            }
        },
        Statement::Block(x) => {
            visit_stmts(x, out);
        },
        Statement::TryCatch { try_body, catch_body, finally_body, .. } => {
            visit_stmts(try_body, out);
            visit_stmts(catch_body, out);
            visit_stmts(finally_body, out);
            proof {
                lemma_add_assoc(
                    before,
                    stmts_visits(model::stmts(try_body@)),
                    stmts_visits(model::stmts(catch_body@)),
                );
                lemma_add_assoc(
                    before,
                    stmts_visits(model::stmts(try_body@)) + stmts_visits(model::stmts(catch_body@)),
                    stmts_visits(model::stmts(finally_body@)),
                );
            }
        },
        Statement::Switch { discriminant, cases, default } => {
            visit_expr(discriminant, out);
            visit_cases(cases, out);
            visit_opt_stmts(default, out);
            proof {
                lemma_add_assoc(
                    before,
                    expr_visits(discriminant@),
                    cases_visits(model::case_arms(cases@)),
                );
                lemma_add_assoc(
                    before,
                    expr_visits(discriminant@) + cases_visits(model::case_arms(cases@)),
                    opt_stmts_visits(model::opt_stmts(*default)),
                );
            }
        },
        Statement::Class { super_class, .. } => {
            visit_opt_expr(super_class, out);
        },
        Statement::Comment(_) => {
            assert(before + Seq::<Expr>::empty() =~= before);
        },
        Statement::Break(_) => {
            assert(before + Seq::<Expr>::empty() =~= before);
        },
        Statement::Continue(_) => {
            assert(before + Seq::<Expr>::empty() =~= before);
        },
    }
}

pub fn visit_opt_expr<'a>(o: &'a Option<Expression>, out: &mut Vec<&'a Expression>)
    ensures
        seen(final(out)@) == seen(old(out)@) + opt_expr_visits(model::opt_expr(*o)),
    decreases o,
{
    match o {
        Some(x) => {
            visit_expr(x, out);
        },
        None => {
            assert(seen(out@) + Seq::<Expr>::empty() =~= seen(out@));
        },
    }
}

pub fn visit_exprs<'a>(v: &'a Vec<Expression>, out: &mut Vec<&'a Expression>)
    ensures
        seen(final(out)@) == seen(old(out)@) + exprs_visits(model::exprs(v@)),
    decreases v,
{
    let ghost all = model::exprs(v@);
    let ghost before = seen(out@);
    let mut i: usize = 0;
    assert(before + Seq::<Expr>::empty() =~= before);
    while i < v.len()
        invariant
            i <= v.len(),
            all == model::exprs(v@),
            seen(out@) == before + exprs_visits(all.take(i as int)),
        decreases v.len() - i,
    {
        assert(all.take(i + 1).drop_last() =~= all.take(i as int));
        let ghost done = exprs_visits(all.take(i as int));
        visit_expr(&v[i], out);
        proof {
            lemma_add_assoc(before, done, expr_visits(all[i as int]));
        }
        i += 1;
    }
    assert(all.take(all.len() as int) =~= all);
}

pub fn visit_elements<'a>(v: &'a Vec<Option<Expression>>, out: &mut Vec<&'a Expression>)
    ensures
        seen(final(out)@) == seen(old(out)@) + elements_visits(model::opt_exprs(v@)),
    decreases v,
{
    let ghost all = model::opt_exprs(v@);
    let ghost before = seen(out@);
    let mut i: usize = 0;
    assert(before + Seq::<Expr>::empty() =~= before);
    while i < v.len()
        invariant
            i <= v.len(),
            all == model::opt_exprs(v@),
            seen(out@) == before + elements_visits(all.take(i as int)),
        decreases v.len() - i,
    {
        assert(all.take(i + 1).drop_last() =~= all.take(i as int));
        let ghost done = elements_visits(all.take(i as int));
        visit_opt_expr(&v[i], out);
        proof {
            lemma_add_assoc(before, done, opt_expr_visits(all[i as int]));
        }
        i += 1;
    }
    assert(all.take(all.len() as int) =~= all);
}

pub fn visit_props<'a>(v: &'a Vec<ObjectProperty>, out: &mut Vec<&'a Expression>)
    ensures
        seen(final(out)@) == seen(old(out)@) + props_visits(model::props(v@)),
    decreases v,
{
    let ghost all = model::props(v@);
    let ghost before = seen(out@);
    let mut i: usize = 0;
    assert(before + Seq::<Expr>::empty() =~= before);
    while i < v.len()
        invariant
            i <= v.len(),
            all == model::props(v@),
            seen(out@) == before + props_visits(all.take(i as int)),
        decreases v.len() - i,
    {
        assert(all.take(i + 1).drop_last() =~= all.take(i as int));
        let ghost done = props_visits(all.take(i as int));
        visit_key(&v[i].key, out);
        visit_expr(&v[i].value, out);
        proof {
            lemma_add_assoc(before, done, key_visits(all[i as int].key));
            lemma_add_assoc(before, done + key_visits(all[i as int].key), expr_visits(all[i as int].value));
        }
        i += 1;
    }
    assert(all.take(all.len() as int) =~= all);
}

pub fn visit_attrs<'a>(v: &'a Vec<(String, Expression)>, out: &mut Vec<&'a Expression>)
    ensures
        seen(final(out)@) == seen(old(out)@) + attrs_visits(model::attrs(v@)),
    decreases v,
{
    let ghost all = model::attrs(v@);
    let ghost before = seen(out@);
    let mut i: usize = 0;
    assert(before + Seq::<Expr>::empty() =~= before);
    while i < v.len()
        invariant
            i <= v.len(),
            all == model::attrs(v@),
            seen(out@) == before + attrs_visits(all.take(i as int)),
        decreases v.len() - i,
    {
        assert(all.take(i + 1).drop_last() =~= all.take(i as int));
        let ghost done = attrs_visits(all.take(i as int));
        visit_expr(&v[i].1, out);
        proof {
            lemma_add_assoc(before, done, expr_visits(all[i as int].1));
        }
        i += 1;
    }
    assert(all.take(all.len() as int) =~= all);
}

pub fn visit_slot<'a>(
    o: &'a Option<(AssignTarget, Option<Expression>)>,
    out: &mut Vec<&'a Expression>,
)
    ensures
        seen(final(out)@) == seen(old(out)@) + slot_visits(model::slot(*o)),
    decreases o,
{
    let ghost before = seen(out@);
    match o {
        Some(p) => {
            visit_target(&p.0, out);
            visit_opt_expr(&p.1, out);
            proof {
                lemma_add_assoc(
                    before,
                    target_visits(p.0@),
                    opt_expr_visits(model::opt_expr(p.1)),
                );
            }
        },
        None => {
            assert(before + Seq::<Expr>::empty() =~= before);
        },
    }
}

pub fn visit_slots<'a>(v: &'a Vec<Option<(AssignTarget, Option<Expression>)>>, out: &mut Vec<&'a Expression>)
    ensures
        seen(final(out)@) == seen(old(out)@) + slots_visits(model::slots(v@)),
    decreases v,
{
    let ghost all = model::slots(v@);
    let ghost before = seen(out@);
    let mut i: usize = 0;
    assert(before + Seq::<Expr>::empty() =~= before);
    while i < v.len()
        invariant
            i <= v.len(),
            all == model::slots(v@),
            seen(out@) == before + slots_visits(all.take(i as int)),
        decreases v.len() - i,
    {
        assert(all.take(i + 1).drop_last() =~= all.take(i as int));
        let ghost done = slots_visits(all.take(i as int));
        visit_slot(&v[i], out);
        proof {
            lemma_add_assoc(before, done, slot_visits(all[i as int]));
        }
        i += 1;
    }
    assert(all.take(all.len() as int) =~= all);
}

pub fn visit_fields<'a>(v: &'a Vec<(String, AssignTarget, Option<Expression>)>, out: &mut Vec<&'a Expression>)
    ensures
        seen(final(out)@) == seen(old(out)@) + fields_visits(model::fields(v@)),
    decreases v,
{
    let ghost all = model::fields(v@);
    let ghost before = seen(out@);
    let mut i: usize = 0;
    assert(before + Seq::<Expr>::empty() =~= before);
    while i < v.len()
        invariant
            i <= v.len(),
            all == model::fields(v@),
            seen(out@) == before + fields_visits(all.take(i as int)),
        decreases v.len() - i,
    {
        assert(all.take(i + 1).drop_last() =~= all.take(i as int));
        let ghost done = fields_visits(all.take(i as int));
        visit_target(&v[i].1, out);
        visit_opt_expr(&v[i].2, out);
        proof {
            lemma_add_assoc(before, done, target_visits(all[i as int].1));
            lemma_add_assoc(before, done + target_visits(all[i as int].1), opt_expr_visits(all[i as int].2));
        }
        i += 1;
    }
    assert(all.take(all.len() as int) =~= all);
}

pub fn visit_stmts<'a>(v: &'a Vec<Statement>, out: &mut Vec<&'a Expression>)
    ensures
        seen(final(out)@) == seen(old(out)@) + stmts_visits(model::stmts(v@)),
    decreases v,
{
    let ghost all = model::stmts(v@);
    let ghost before = seen(out@);
    let mut i: usize = 0;
    assert(before + Seq::<Expr>::empty() =~= before);
    while i < v.len()
        invariant
            i <= v.len(),
            all == model::stmts(v@),
            seen(out@) == before + stmts_visits(all.take(i as int)),
        decreases v.len() - i,
    {
        assert(all.take(i + 1).drop_last() =~= all.take(i as int));
        let ghost done = stmts_visits(all.take(i as int));
        visit_stmt(&v[i], out);
        proof {
            lemma_add_assoc(before, done, stmt_visits(all[i as int]));
        }
        i += 1;
    }
    assert(all.take(all.len() as int) =~= all);
}

pub fn visit_opt_stmt<'a>(o: &'a Option<Box<Statement>>, out: &mut Vec<&'a Expression>)
    ensures
        seen(final(out)@) == seen(old(out)@) + opt_stmt_visits(model::opt_stmt(*o)),
    decreases o,
{
    match o {
        Some(x) => {
            visit_stmt(x, out);
        },
        None => {
            assert(seen(out@) + Seq::<Expr>::empty() =~= seen(out@));
        },
    }
}

pub fn visit_opt_stmts<'a>(o: &'a Option<Vec<Statement>>, out: &mut Vec<&'a Expression>)
    ensures
        seen(final(out)@) == seen(old(out)@) + opt_stmts_visits(model::opt_stmts(*o)),
    decreases o,
{
    match o {
        Some(x) => {
            visit_stmts(x, out);
        },
        None => {
            assert(seen(out@) + Seq::<Expr>::empty() =~= seen(out@));
        },
    }
}

pub fn visit_cases<'a>(v: &'a Vec<(Expression, Vec<Statement>)>, out: &mut Vec<&'a Expression>)
    ensures
        seen(final(out)@) == seen(old(out)@) + cases_visits(model::case_arms(v@)),
    decreases v,
{
    let ghost all = model::case_arms(v@);
    let ghost before = seen(out@);
    let mut i: usize = 0;
    assert(before + Seq::<Expr>::empty() =~= before);
    while i < v.len()
        invariant
            i <= v.len(),
            all == model::case_arms(v@),
            seen(out@) == before + cases_visits(all.take(i as int)),
        decreases v.len() - i,
    {
        assert(all.take(i + 1).drop_last() =~= all.take(i as int));
        let ghost done = cases_visits(all.take(i as int));
        visit_expr(&v[i].0, out);
        visit_stmts(&v[i].1, out);
        proof {
            lemma_add_assoc(before, done, expr_visits(all[i as int].0));
            lemma_add_assoc(before, done + expr_visits(all[i as int].0), stmts_visits(all[i as int].1));
        }
        i += 1;
    }
    assert(all.take(all.len() as int) =~= all);
}

/// Every expression in a list of statements.
pub fn of_stmts<'a>(v: &'a Vec<Statement>) -> (r: Vec<&'a Expression>)
    ensures
        seen(r@) == stmts_visits(model::stmts(v@)),
{
    let mut out: Vec<&'a Expression> = Vec::new();
    visit_stmts(v, &mut out);
    assert(seen(out@) =~= stmts_visits(model::stmts(v@)));
    out
}

/// Every expression in a statement.
pub fn of_stmt<'a>(s: &'a Statement) -> (r: Vec<&'a Expression>)
    ensures
        seen(r@) == stmt_visits(s@),
{
    let mut out: Vec<&'a Expression> = Vec::new();
    visit_stmt(s, &mut out);
    assert(seen(out@) =~= stmt_visits(s@));
    out
}

/// Every expression in an expression, itself first.
pub fn of_expr<'a>(e: &'a Expression) -> (r: Vec<&'a Expression>)
    ensures
        seen(r@) == expr_visits(e@),
{
    let mut out: Vec<&'a Expression> = Vec::new();
    visit_expr(e, &mut out);
    assert(seen(out@) =~= expr_visits(e@));
    out
}

} // verus!
