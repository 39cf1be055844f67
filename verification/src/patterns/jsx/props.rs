//! Replaces a variable that holds the properties of an element by the object literal it holds.

use super::calls;
use super::lower;
use crate::dict;
use crate::ir::cloning::{clone_opt_expr, clone_opt_stmt, clone_opt_text, clone_texts};
use crate::ir::model;
use crate::ir::model::{Expr, Prop, Stmt, Target, Val};
use crate::ir::nested;
use crate::ir::visit;
use crate::ir::{AssignTarget, Expression, ObjectProperty, Statement, Value};
use crate::text;
use vstd::prelude::*;

verus! {

/// The variable that a member path starts with: a write through the path changes its object.
pub open spec fn base(e: Expr) -> Option<Seq<char>>
    decreases e,
{
    match e {
        Expr::Value(Val::Variable(n)) => Some(n),
        Expr::Member { object, .. } => base(*object),
        _ => None,
    }
}

pub open spec fn base_names(e: Expr) -> Seq<Seq<char>> {
    match base(e) {
        Some(n) => seq![n],
        None => Seq::empty(),
    }
}

/// The names that assignment expressions among visited ones write.
pub open spec fn expr_writes(s: Seq<Expr>) -> Seq<Seq<char>>
    decreases s.len(),
{
    if s.len() == 0 {
        Seq::empty()
    } else {
        let before = expr_writes(s.drop_last());
        match s.last() {
            Expr::Assignment { target, .. } => before + base_names(*target),
            _ => before,
        }
    }
}

/// The names that an assignment target writes.
pub open spec fn target_writes(t: Target) -> Seq<Seq<char>>
    decreases t,
{
    match t {
        Target::Register(_) => Seq::empty(),
        Target::Variable(n) => seq![n],
        Target::Member { object, .. } => base_names(object),
        Target::Index { object, .. } => base_names(object),
        Target::DestructuringArray(elements) => slots_writes(elements),
        Target::DestructuringArrayRest { elements, rest } => slots_writes(elements)
            + target_writes(*rest),
        Target::DestructuringObject(properties) => fields_writes(properties),
        Target::DestructuringObjectRest { properties, rest } => fields_writes(properties)
            + target_writes(*rest),
    }
}

pub open spec fn slots_writes(s: Seq<Option<(Target, Option<Expr>)>>) -> Seq<Seq<char>>
    decreases s,
{
    if s.len() == 0 {
        Seq::empty()
    } else {
        slots_writes(s.drop_last()) + match s.last() {
            Some(x) => target_writes(x.0),
            None => Seq::empty(),
        }
    }
}

pub open spec fn fields_writes(s: Seq<(Seq<char>, Target, Option<Expr>)>) -> Seq<Seq<char>>
    decreases s,
{
    if s.len() == 0 {
        Seq::empty()
    } else {
        fields_writes(s.drop_last()) + target_writes(s.last().1)
    }
}

/// The names that a statement itself binds or writes.
pub open spec fn own_writes(s: Stmt) -> Seq<Seq<char>> {
    match s {
        Stmt::Let { name, .. } => seq![name],
        Stmt::ForOf { variable, .. } => seq![variable],
        Stmt::ForIn { variable, .. } => seq![variable],
        Stmt::Class { name, .. } => seq![name],
        Stmt::TryCatch { catch_param: Some(name), .. } => seq![name],
        Stmt::Assign { target, .. } => target_writes(target),
        _ => Seq::empty(),
    }
}

pub open spec fn all_own_writes(s: Seq<Stmt>) -> Seq<Seq<char>>
    decreases s.len(),
{
    if s.len() == 0 {
        Seq::empty()
    } else {
        all_own_writes(s.drop_last()) + own_writes(s.last())
    }
}

/// The names that a statement writes, in its nested lists too.
pub open spec fn writes(s: Stmt) -> Seq<Seq<char>> {
    all_own_writes(nested::flat_stmt(s)) + expr_writes(visit::stmt_visits(s))
}

/// The object literal recorded for a name.
pub open spec fn known(o: Seq<(Seq<char>, Expr)>, n: Seq<char>) -> Option<Expr>
    decreases o.len(),
{
    if o.len() == 0 {
        None
    } else if o.last().0 == n {
        Some(o.last().1)
    } else {
        known(o.drop_last(), n)
    }
}

/// The records but for those of some names.
pub open spec fn without(o: Seq<(Seq<char>, Expr)>, names: Seq<Seq<char>>) -> Seq<
    (Seq<char>, Expr),
>
    decreases o.len(),
{
    if o.len() == 0 {
        o
    } else if names.contains(o.last().0) {
        without(o.drop_last(), names)
    } else {
        without(o.drop_last(), names).push(o.last())
    }
}

/// Nothing is recorded for a name once a statement has written it.
pub proof fn lemma_written_records_go(o: Seq<(Seq<char>, Expr)>, names: Seq<Seq<char>>, n: Seq<char>)
    ensures
        names.contains(n) ==> known(without(o, names), n) is None,
        !names.contains(n) ==> known(without(o, names), n) == known(o, n),
    decreases o.len(),
{
    if o.len() > 0 {
        lemma_written_records_go(o.drop_last(), names, n);
        if !names.contains(o.last().0) {
            let kept = without(o.drop_last(), names);
            assert(kept.push(o.last()).drop_last() =~= kept);
        }
    }
}

/// How many records are of names that are not active.
pub open spec fn left(o: Seq<(Seq<char>, Expr)>, active: Seq<Seq<char>>) -> nat
    decreases o.len(),
{
    if o.len() == 0 {
        0
    } else {
        left(o.drop_last(), active) + (if active.contains(o.last().0) {
            0nat
        } else {
            1nat
        })
    }
}

/// To replace a recorded name leaves fewer to replace.
pub proof fn lemma_left(o: Seq<(Seq<char>, Expr)>, active: Seq<Seq<char>>, n: Seq<char>)
    ensures
        left(o, active.push(n)) <= left(o, active),
        known(o, n) is Some && !active.contains(n) ==> left(o, active.push(n)) < left(o, active),
    decreases o.len(),
{
    if o.len() > 0 {
        lemma_left(o.drop_last(), active, n);
        let m = o.last().0;
        assert(active.push(n)[active.len() as int] == n);
        if active.contains(m) {
            let k = choose|k: int| 0 <= k < active.len() && active[k] == m;
            assert(active.push(n)[k] == m);
        }
    }
}

/// The name and the literal by which the properties of an element are replaced: those of a
/// variable with a record, unless it is being replaced already.
pub open spec fn expansion(
    o: Seq<(Seq<char>, Expr)>,
    active: Seq<Seq<char>>,
    e: Expr,
) -> Option<(Seq<char>, Expr)> {
    match e {
        Expr::Value(Val::Variable(n)) => if active.contains(n) {
            None
        } else {
            match known(o, n) {
                Some(x) => Some((n, x)),
                None => None,
            }
        },
        _ => None,
    }
}

/// Whether a call is a factory call that becomes an element and has properties.
pub open spec fn takes_props(callee: Expr, args: Seq<Expr>) -> bool {
    lower::jsx_callee(callee) && args.len() >= 2 && lower::tag(args[0]) is Some
}

/// The expression with the properties of its factory calls replaced by the recorded literals.
/// The names in `active` are being replaced and are not replaced again below.
pub open spec fn subst(o: Seq<(Seq<char>, Expr)>, active: Seq<Seq<char>>, e: Expr) -> Expr
    decreases left(o, active), e,
{
    match e {
        Expr::Call { callee, arguments } => {
            let plain = subst_exprs(o, active, arguments);
            let f = Box::new(subst(o, active, *callee));
            if takes_props(*callee, arguments) {
                match expansion(o, active, arguments[1]) {
                    Some(x) => {
                        proof {
                            lemma_left(o, active, x.0);
                        }
                        Expr::Call {
                            callee: f,
                            arguments: plain.update(1, subst(o, active.push(x.0), x.1)),
                        }
                    },
                    None => Expr::Call { callee: f, arguments: plain },
                }
            } else {
                Expr::Call { callee: f, arguments: plain }
            }
        },
        Expr::New { callee, arguments } => Expr::New {
            callee: Box::new(subst(o, active, *callee)),
            arguments: subst_exprs(o, active, arguments),
        },
        Expr::Binary { op, left, right } => Expr::Binary {
            op,
            left: Box::new(subst(o, active, *left)),
            right: Box::new(subst(o, active, *right)),
        },
        Expr::Unary { op, operand } => Expr::Unary {
            op,
            operand: Box::new(subst(o, active, *operand)),
        },
        Expr::Spread(x) => Expr::Spread(Box::new(subst(o, active, *x))),
        Expr::Await(x) => Expr::Await(Box::new(subst(o, active, *x))),
        Expr::Yield { value, delegate } => Expr::Yield {
            value: Box::new(subst(o, active, *value)),
            delegate,
        },
        Expr::Member { object, property, optional } => Expr::Member {
            object: Box::new(subst(o, active, *object)),
            property,
            optional,
        },
        Expr::Conditional { condition, then_expr, else_expr } => Expr::Conditional {
            condition: Box::new(subst(o, active, *condition)),
            then_expr: Box::new(subst(o, active, *then_expr)),
            else_expr: Box::new(subst(o, active, *else_expr)),
        },
        Expr::Array { elements } => Expr::Array {
            elements: subst_elements(o, active, elements),
        },
        Expr::Object { properties } => Expr::Object {
            properties: subst_props(o, active, properties),
        },
        Expr::Assignment { target, value } => Expr::Assignment {
            target: Box::new(subst(o, active, *target)),
            value: Box::new(subst(o, active, *value)),
        },
        Expr::JSXElement { tag, attributes, children } => Expr::JSXElement {
            tag,
            attributes: subst_attrs(o, active, attributes),
            children: subst_exprs(o, active, children),
        },
        _ => e,
    }
}

pub open spec fn subst_opt(
    o: Seq<(Seq<char>, Expr)>,
    active: Seq<Seq<char>>,
    e: Option<Expr>,
) -> Option<Expr>
    decreases left(o, active), e,
{
    match e {
        Some(x) => Some(subst(o, active, x)),
        None => None,
    }
}

pub open spec fn subst_prop(o: Seq<(Seq<char>, Expr)>, active: Seq<Seq<char>>, p: Prop) -> Prop
    decreases left(o, active), p,
{
    Prop { key: p.key, value: subst(o, active, p.value) }
}

pub open spec fn subst_attr(
    o: Seq<(Seq<char>, Expr)>,
    active: Seq<Seq<char>>,
    a: (Seq<char>, Expr),
) -> (Seq<char>, Expr)
    decreases left(o, active), a,
{
    (a.0, subst(o, active, a.1))
}

pub open spec fn subst_exprs(
    o: Seq<(Seq<char>, Expr)>,
    active: Seq<Seq<char>>,
    s: Seq<Expr>,
) -> Seq<Expr>
    decreases left(o, active), s,
{
    Seq::new(
        s.len(),
        |i: int|
            if 0 <= i < s.len() {
                subst(o, active, s[i])
            } else {
                arbitrary()
            },
    )
}

pub open spec fn subst_elements(
    o: Seq<(Seq<char>, Expr)>,
    active: Seq<Seq<char>>,
    s: Seq<Option<Expr>>,
) -> Seq<Option<Expr>>
    decreases left(o, active), s,
{
    Seq::new(
        s.len(),
        |i: int|
            if 0 <= i < s.len() {
                subst_opt(o, active, s[i])
            } else {
                arbitrary()
            },
    )
}

pub open spec fn subst_props(
    o: Seq<(Seq<char>, Expr)>,
    active: Seq<Seq<char>>,
    s: Seq<Prop>,
) -> Seq<Prop>
    decreases left(o, active), s,
{
    Seq::new(
        s.len(),
        |i: int|
            if 0 <= i < s.len() {
                subst_prop(o, active, s[i])
            } else {
                arbitrary()
            },
    )
}

pub open spec fn subst_attrs(
    o: Seq<(Seq<char>, Expr)>,
    active: Seq<Seq<char>>,
    s: Seq<(Seq<char>, Expr)>,
) -> Seq<(Seq<char>, Expr)>
    decreases left(o, active), s,
{
    Seq::new(
        s.len(),
        |i: int|
            if 0 <= i < s.len() {
                subst_attr(o, active, s[i])
            } else {
                arbitrary()
            },
    )
}

/// The records after a name is bound to a value.
pub open spec fn bound(o: Seq<(Seq<char>, Expr)>, name: Seq<char>, value: Expr) -> Seq<
    (Seq<char>, Expr),
> {
    let kept = without(without(o, expr_writes(visit::expr_visits(value))), seq![name]);
    if value is Object {
        kept.push((name, value))
    } else {
        kept
    }
}

/// The factory calls whose properties are resolved: those that become elements, or those that stay
/// calls.
#[derive(Clone, Copy, Debug, PartialEq, Eq, Structural)]
pub enum Calls {
    Elements,
    Others,
}

/// An expression with the properties of its factory calls resolved.
pub open spec fn settled(c: Calls, o: Seq<(Seq<char>, Expr)>, e: Expr) -> Expr {
    match c {
        Calls::Elements => subst(o, Seq::empty(), e),
        Calls::Others => calls::put(o, 0, e),
    }
}

/// The statement with the factory calls in its own value resolved.
pub open spec fn value_resolved(c: Calls, o: Seq<(Seq<char>, Expr)>, s: Stmt) -> Stmt {
    match s {
        Stmt::Expr(e) => Stmt::Expr(settled(c, o, e)),
        Stmt::Return(Some(e)) => Stmt::Return(Some(settled(c, o, e))),
        Stmt::Throw(e) => Stmt::Throw(settled(c, o, e)),
        Stmt::Assign { target, value } => Stmt::Assign {
            target,
            value: settled(c, o, value),
        },
        _ => s,
    }
}

/// A statement as it is after those that left the records, and the records that it leaves.
pub open spec fn step(c: Calls, o: Seq<(Seq<char>, Expr)>, s: Stmt) -> (Stmt, Seq<(Seq<char>, Expr)>)
    decreases s, 1nat,
{
    match s {
        Stmt::Let { name, value, kind } => {
            let v = settled(c, o, value);
            (Stmt::Let { name, value: v, kind }, bound(o, name, v))
        },
        Stmt::Assign { target: Target::Variable(name), value } => {
            let v = settled(c, o, value);
            (Stmt::Assign { target: Target::Variable(name), value: v }, bound(o, name, v))
        },
        _ => {
            let t = value_resolved(c, o, resolved_nested(c, s));
            (t, without(o, writes(t)))
        },
    }
}

/// The list with its properties resolved, and the records that it leaves.
pub open spec fn run(c: Calls, s: Seq<Stmt>) -> (Seq<Stmt>, Seq<(Seq<char>, Expr)>)
    decreases s, 0nat,
{
    if s.len() == 0 {
        (Seq::empty(), Seq::empty())
    } else {
        let before = run(c, s.drop_last());
        let x = step(c, before.1, s.last());
        (before.0.push(x.0), x.1)
    }
}

/// The list with the properties of its factory calls resolved. A nested list is resolved by
/// itself.
pub open spec fn resolved(c: Calls, s: Seq<Stmt>) -> Seq<Stmt>
    decreases s, 1nat,
{
    run(c, s).0
}

/// The statement with the property objects of its nested lists resolved.
pub open spec fn resolved_nested(c: Calls, s: Stmt) -> Stmt
    decreases s, 0nat,
{
    match s {
        Stmt::If { condition, then_body, else_body } => Stmt::If {
            condition,
            then_body: resolved(c, then_body),
            else_body: resolved(c, else_body),
        },
        Stmt::While { condition, body } => Stmt::While {
            condition,
            body: resolved(c, body),
        },
        Stmt::DoWhile { body, condition } => Stmt::DoWhile {
            body: resolved(c, body),
            condition,
        },
        Stmt::For { init, condition, update, body } => Stmt::For {
            init,
            condition,
            update,
            body: resolved(c, body),
        },
        Stmt::ForIn { variable, object, body } => Stmt::ForIn {
            variable,
            object,
            body: resolved(c, body),
        },
        Stmt::ForOf { variable, iterable, body } => Stmt::ForOf {
            variable,
            iterable,
            body: resolved(c, body),
        },
        Stmt::Block(body) => Stmt::Block(resolved(c, body)),
        Stmt::TryCatch { try_body, catch_param, catch_body, finally_body } => Stmt::TryCatch {
            try_body: resolved(c, try_body),
            catch_param,
            catch_body: resolved(c, catch_body),
            finally_body: resolved(c, finally_body),
        },
        Stmt::Switch { discriminant, cases, default } => Stmt::Switch {
            discriminant,
            cases: resolved_nested_cases(c, cases),
            default: resolved_nested_default(c, default),
        },
        _ => s,
    }
}

pub open spec fn resolved_nested_case(c: Calls, a: (Expr, Seq<Stmt>)) -> (Expr, Seq<Stmt>)
    decreases a, 0nat,
{
    (a.0, resolved(c, a.1))
}

pub open spec fn resolved_nested_cases(c: Calls, s: Seq<(Expr, Seq<Stmt>)>) -> Seq<(Expr, Seq<Stmt>)>
    decreases s, 0nat,
{
    Seq::new(
        s.len(),
        |i: int|
            if 0 <= i < s.len() {
                resolved_nested_case(c, s[i])
            } else {
                arbitrary()
            },
    )
}

pub open spec fn resolved_nested_default(c: Calls, d: Option<Seq<Stmt>>) -> Option<Seq<Stmt>>
    decreases d, 0nat,
{
    match d {
        Some(b) => Some(resolved(c, b)),
        None => None,
    }
}

fn base_variable(e: &Expression) -> (r: Option<&String>)
    ensures
        match r {
            Some(n) => base(e@) == Some(n@),
            None => base(e@) is None,
        },
    decreases e,
{
    match e {
        Expression::Value(Value::Variable(n)) => Some(n),
        Expression::Member { object, .. } => base_variable(object),
        _ => None,
    }
}

fn push_name(out: &mut Vec<String>, n: &String)
    ensures
        model::texts(final(out)@) == model::texts(old(out)@) + seq![n@],
{
    let ghost before = model::texts(out@);
    out.push(n.clone());
    assert(model::texts(out@) =~= before + seq![n@]);
}

fn push_base(out: &mut Vec<String>, e: &Expression)
    ensures
        model::texts(final(out)@) == model::texts(old(out)@) + base_names(e@),
{
    match base_variable(e) {
        Some(n) => push_name(out, n),
        None => {
            assert(model::texts(out@) + Seq::<Seq<char>>::empty() =~= model::texts(out@));
        },
    }
}

fn push_expr_writes(v: &Vec<&Expression>, out: &mut Vec<String>)
    ensures
        model::texts(final(out)@) == model::texts(old(out)@) + expr_writes(visit::seen(v@)),
{
    let ghost all = visit::seen(v@);
    let ghost first = model::texts(out@);
    let mut i: usize = 0;
    assert(first + expr_writes(all.take(0)) =~= first);
    while i < v.len()
        invariant
            i <= v.len(),
            all == visit::seen(v@),
            model::texts(out@) == first + expr_writes(all.take(i as int)),
        decreases v.len() - i,
    {
        assert(all.take(i + 1).drop_last() =~= all.take(i as int));
        assert(all[i as int] == v@[i as int]@);
        if let Expression::Assignment { target, .. } = v[i] {
            push_base(out, target);
            assert((first + expr_writes(all.take(i as int))) + base_names(target@) =~= first + (
            expr_writes(all.take(i as int)) + base_names(target@)));
        }
        i += 1;
    }
    assert(all.take(all.len() as int) =~= all);
}

fn push_target_writes(t: &AssignTarget, out: &mut Vec<String>)
    ensures
        model::texts(final(out)@) == model::texts(old(out)@) + target_writes(t@),
    decreases t,
{
    let ghost first = model::texts(out@);
    match t {
        AssignTarget::Register(_) => {
            assert(first + target_writes(t@) =~= first);
        },
        AssignTarget::Variable(n) => push_name(out, n),
        AssignTarget::Member { object, .. } => push_base(out, object),
        AssignTarget::Index { object, .. } => push_base(out, object),
        AssignTarget::DestructuringArray(elements) => push_slots_writes(elements, out),
        AssignTarget::DestructuringArrayRest { elements, rest } => {
            push_slots_writes(elements, out);
            push_target_writes(rest, out);
            assert(model::texts(out@) =~= first + target_writes(t@));
        },
        AssignTarget::DestructuringObject(properties) => push_fields_writes(properties, out),
        AssignTarget::DestructuringObjectRest { properties, rest } => {
            push_fields_writes(properties, out);
            push_target_writes(rest, out);
            assert(model::texts(out@) =~= first + target_writes(t@));
        },
    }
}

fn push_slots_writes(
    v: &Vec<Option<(AssignTarget, Option<Expression>)>>,
    out: &mut Vec<String>,
)
    ensures
        model::texts(final(out)@) == model::texts(old(out)@) + slots_writes(model::slots(v@)),
    decreases v,
{
    let ghost all = model::slots(v@);
    let ghost first = model::texts(out@);
    let mut i: usize = 0;
    assert(first + slots_writes(all.take(0)) =~= first);
    while i < v.len()
        invariant
            i <= v.len(),
            all == model::slots(v@),
            model::texts(out@) == first + slots_writes(all.take(i as int)),
        decreases v.len() - i,
    {
        assert(all.take(i + 1).drop_last() =~= all.take(i as int));
        assert(all[i as int] == model::slot(v@[i as int]));
        let ghost before = model::texts(out@);
        if let Some(x) = &v[i] {
            push_target_writes(&x.0, out);
        } else {
            assert(before + Seq::<Seq<char>>::empty() =~= before);
        }
        assert(model::texts(out@) =~= first + slots_writes(all.take(i + 1)));
        i += 1;
    }
    assert(all.take(all.len() as int) =~= all);
}

fn push_fields_writes(
    v: &Vec<(String, AssignTarget, Option<Expression>)>,
    out: &mut Vec<String>,
)
    ensures
        model::texts(final(out)@) == model::texts(old(out)@) + fields_writes(model::fields(v@)),
    decreases v,
{
    let ghost all = model::fields(v@);
    let ghost first = model::texts(out@);
    let mut i: usize = 0;
    assert(first + fields_writes(all.take(0)) =~= first);
    while i < v.len()
        invariant
            i <= v.len(),
            all == model::fields(v@),
            model::texts(out@) == first + fields_writes(all.take(i as int)),
        decreases v.len() - i,
    {
        assert(all.take(i + 1).drop_last() =~= all.take(i as int));
        assert(all[i as int] == model::field(v@[i as int]));
        push_target_writes(&v[i].1, out);
        assert(model::texts(out@) =~= first + fields_writes(all.take(i + 1)));
        i += 1;
    }
    assert(all.take(all.len() as int) =~= all);
}

fn push_own_writes(s: &Statement, out: &mut Vec<String>)
    ensures
        model::texts(final(out)@) == model::texts(old(out)@) + own_writes(s@),
{
    let ghost first = model::texts(out@);
    match s {
        Statement::Let { name, .. } => push_name(out, name),
        Statement::ForOf { variable, .. } => push_name(out, variable),
        Statement::ForIn { variable, .. } => push_name(out, variable),
        Statement::Class { name, .. } => push_name(out, name),
        Statement::TryCatch { catch_param: Some(name), .. } => push_name(out, name),
        Statement::Assign { target, .. } => push_target_writes(target, out),
        _ => {
            assert(own_writes(s@) =~= Seq::empty());
            assert(first + Seq::<Seq<char>>::empty() =~= first);
        },
    }
}

fn written_names(s: &Statement) -> (r: Vec<String>)
    ensures
        model::texts(r@) == writes(s@),
{
    let parts: Vec<&Statement> = nested::of_stmt(s);
    let ghost all = nested::seen(parts@);
    let mut out: Vec<String> = Vec::new();
    let mut i: usize = 0;
    assert(model::texts(out@) =~= all_own_writes(all.take(0)));
    while i < parts.len()
        invariant
            i <= parts.len(),
            all == nested::seen(parts@),
            model::texts(out@) == all_own_writes(all.take(i as int)),
        decreases parts.len() - i,
    {
        assert(all.take(i + 1).drop_last() =~= all.take(i as int));
        assert(all[i as int] == parts@[i as int]@);
        push_own_writes(parts[i], &mut out);
        i += 1;
    }
    assert(all.take(all.len() as int) =~= all);
    let exprs: Vec<&Expression> = visit::of_stmt(s);
    push_expr_writes(&exprs, &mut out);
    out
}

fn get_known<'a>(o: &'a Vec<(String, Expression)>, n: &str) -> (r: Option<&'a Expression>)
    ensures
        match r {
            Some(x) => known(model::attrs(o@), n@) == Some(x@),
            None => known(model::attrs(o@), n@) is None,
        },
{
    let ghost all = model::attrs(o@);
    let mut i: usize = o.len();
    assert(all.take(all.len() as int) =~= all);
    while i > 0
        invariant
            i <= o.len(),
            all == model::attrs(o@),
            known(all, n@) == known(all.take(i as int), n@),
        decreases i,
    {
        let x = &o[i - 1];
        assert(all.take(i as int).drop_last() =~= all.take(i - 1));
        assert(all[i - 1] == model::attr(o@[i - 1]));
        if text::same(&x.0, n) {
            return Some(&x.1);
        }
        i -= 1;
    }
    None
}

fn drop_names(o: &Vec<(String, Expression)>, names: &Vec<String>) -> (r: Vec<
    (String, Expression),
>)
    ensures
        model::attrs(r@) == without(model::attrs(o@), model::texts(names@)),
{
    let ghost all = model::attrs(o@);
    let mut out: Vec<(String, Expression)> = Vec::new();
    let mut i: usize = 0;
    assert(model::attrs(out@) =~= all.take(0));
    while i < o.len()
        invariant
            i <= o.len(),
            all == model::attrs(o@),
            model::attrs(out@) == without(all.take(i as int), model::texts(names@)),
        decreases o.len() - i,
    {
        assert(all.take(i + 1).drop_last() =~= all.take(i as int));
        assert(all[i as int] == model::attr(o@[i as int]));
        if !dict::contains_name(names, &o[i].0) {
            let ghost before = model::attrs(out@);
            out.push((o[i].0.clone(), o[i].1.clone()));
            assert(model::attrs(out@) =~= before.push(all[i as int]));
        }
        i += 1;
    }
    assert(all.take(all.len() as int) =~= all);
    out
}

/// Replaces the properties of factory calls. `active` holds the names that are being replaced:
/// a literal can mention its own name, and replacing a name at most once on a path keeps the
/// result finite.
fn subst_jsx_props_guarded(
    o: &Vec<(String, Expression)>,
    active: &Vec<String>,
    e: &Expression,
) -> (r: Expression)
    ensures
        r@ == subst(model::attrs(o@), model::texts(active@), e@),
    decreases left(model::attrs(o@), model::texts(active@)), e,
{
    match e {
        Expression::Call { callee, arguments } => {
            let mut args = substitute_exprs(o, active, arguments);
            let f = Box::new(subst_jsx_props_guarded(o, active, callee));
            let ghost raw = model::exprs(arguments@);
            let ghost plain = model::exprs(args@);
            assert(raw.len() == arguments@.len() && plain.len() == args@.len());
            assert(plain.len() == raw.len());
            let takes: bool = arguments.len() >= 2 && lower::is_jsx_call(callee)
                && lower::find_tag(&arguments[0]).is_some();
            assert(takes ==> raw[0] == arguments@[0]@);
            assert(arguments@.len() >= 2 ==> raw[0] == arguments@[0]@);
            if takes {
                assert(raw[1] == arguments@[1]@);
                if let Expression::Value(Value::Variable(n)) = &arguments[1] {
                    if !dict::contains_name(active, n) {
                        if let Some(x) = get_known(o, n) {
                            let mut deeper = clone_texts(active);
                            push_name(&mut deeper, n);
                            proof {
                                assert(model::texts(deeper@) =~= model::texts(active@).push(n@));
                                lemma_left(model::attrs(o@), model::texts(active@), n@);
                            }
                            let y = subst_jsx_props_guarded(o, &deeper, x);
                            args.set(1, y);
                            assert(model::exprs(args@) =~= plain.update(1, y@));
                        }
                    }
                }
            }
            Expression::Call { callee: f, arguments: args }
        },
        Expression::New { callee, arguments } => Expression::New {
            callee: Box::new(subst_jsx_props_guarded(o, active, callee)),
            arguments: substitute_exprs(o, active, arguments),
        },
        Expression::Binary { op, left, right } => Expression::Binary {
            op: *op,
            left: Box::new(subst_jsx_props_guarded(o, active, left)),
            right: Box::new(subst_jsx_props_guarded(o, active, right)),
        },
        Expression::Unary { op, operand } => Expression::Unary {
            op: *op,
            operand: Box::new(subst_jsx_props_guarded(o, active, operand)),
        },
        Expression::Spread(x) => Expression::Spread(Box::new(subst_jsx_props_guarded(o, active, x))),
        Expression::Await(x) => Expression::Await(Box::new(subst_jsx_props_guarded(o, active, x))),
        Expression::Yield { value, delegate } => Expression::Yield {
            value: Box::new(subst_jsx_props_guarded(o, active, value)),
            delegate: *delegate,
        },
        Expression::Member { object, property, optional } => Expression::Member {
            object: Box::new(subst_jsx_props_guarded(o, active, object)),
            property: property.clone(),
            optional: *optional,
        },
        Expression::Conditional { condition, then_expr, else_expr } => Expression::Conditional {
            condition: Box::new(subst_jsx_props_guarded(o, active, condition)),
            then_expr: Box::new(subst_jsx_props_guarded(o, active, then_expr)),
            else_expr: Box::new(subst_jsx_props_guarded(o, active, else_expr)),
        },
        Expression::Array { elements } => Expression::Array {
            elements: substitute_elements(o, active, elements),
        },
        Expression::Object { properties } => Expression::Object {
            properties: substitute_props(o, active, properties),
        },
        Expression::Assignment { target, value } => Expression::Assignment {
            target: Box::new(subst_jsx_props_guarded(o, active, target)),
            value: Box::new(subst_jsx_props_guarded(o, active, value)),
        },
        Expression::JSXElement { tag, attributes, children } => Expression::JSXElement {
            tag: tag.clone(),
            attributes: substitute_attrs(o, active, attributes),
            children: substitute_exprs(o, active, children),
        },
        _ => e.clone(),
    }
}

fn substitute_opt(
    o: &Vec<(String, Expression)>,
    active: &Vec<String>,
    e: &Option<Expression>,
) -> (r: Option<Expression>)
    ensures
        model::opt_expr(r) == subst_opt(
            model::attrs(o@),
            model::texts(active@),
            model::opt_expr(*e),
        ),
    decreases left(model::attrs(o@), model::texts(active@)), e,
{
    match e {
        Some(x) => Some(subst_jsx_props_guarded(o, active, x)),
        None => None,
    }
}

fn substitute_prop(
    o: &Vec<(String, Expression)>,
    active: &Vec<String>,
    p: &ObjectProperty,
) -> (r: ObjectProperty)
    ensures
        r@ == subst_prop(model::attrs(o@), model::texts(active@), p@),
    decreases left(model::attrs(o@), model::texts(active@)), p,
{
    ObjectProperty { key: p.key.clone(), value: subst_jsx_props_guarded(o, active, &p.value) }
}

fn substitute_attr(
    o: &Vec<(String, Expression)>,
    active: &Vec<String>,
    a: &(String, Expression),
) -> (r: (String, Expression))
    ensures
        model::attr(r) == subst_attr(model::attrs(o@), model::texts(active@), model::attr(*a)),
    decreases left(model::attrs(o@), model::texts(active@)), a,
{
    (a.0.clone(), subst_jsx_props_guarded(o, active, &a.1))
}

fn substitute_exprs(
    o: &Vec<(String, Expression)>,
    active: &Vec<String>,
    v: &Vec<Expression>,
) -> (r: Vec<Expression>)
    ensures
        model::exprs(r@) == subst_exprs(model::attrs(o@), model::texts(active@), model::exprs(v@)),
    decreases left(model::attrs(o@), model::texts(active@)), v,
{
    let mut out: Vec<Expression> = Vec::new();
    let mut i: usize = 0;
    while i < v.len()
        invariant
            i <= v.len(),
            out.len() == i,
            forall|k: int|
                0 <= k < i ==> (#[trigger] out@[k])@ == subst(model::attrs(o@), model::texts(active@), (v@[k])@),
        decreases v.len() - i,
    {
        let x = subst_jsx_props_guarded(o, active, &v[i]);
        out.push(x);
        i += 1;
    }
    assert(model::exprs(out@) =~= subst_exprs(model::attrs(o@), model::texts(active@), model::exprs(v@)));
    out
}

fn substitute_elements(
    o: &Vec<(String, Expression)>,
    active: &Vec<String>,
    v: &Vec<Option<Expression>>,
) -> (r: Vec<Option<Expression>>)
    ensures
        model::opt_exprs(r@) == subst_elements(model::attrs(o@), model::texts(active@), model::opt_exprs(v@)),
    decreases left(model::attrs(o@), model::texts(active@)), v,
{
    let mut out: Vec<Option<Expression>> = Vec::new();
    let mut i: usize = 0;
    while i < v.len()
        invariant
            i <= v.len(),
            out.len() == i,
            forall|k: int|
                0 <= k < i ==> model::opt_expr(#[trigger] out@[k]) == subst_opt(model::attrs(o@), model::texts(active@), model::opt_expr(v@[k])),
        decreases v.len() - i,
    {
        let x = substitute_opt(o, active, &v[i]);
        out.push(x);
        i += 1;
    }
    assert(model::opt_exprs(out@) =~= subst_elements(model::attrs(o@), model::texts(active@), model::opt_exprs(v@)));
    out
}

fn substitute_props(
    o: &Vec<(String, Expression)>,
    active: &Vec<String>,
    v: &Vec<ObjectProperty>,
) -> (r: Vec<ObjectProperty>)
    ensures
        model::props(r@) == subst_props(model::attrs(o@), model::texts(active@), model::props(v@)),
    decreases left(model::attrs(o@), model::texts(active@)), v,
{
    let mut out: Vec<ObjectProperty> = Vec::new();
    let mut i: usize = 0;
    while i < v.len()
        invariant
            i <= v.len(),
            out.len() == i,
            forall|k: int|
                0 <= k < i ==> (#[trigger] out@[k])@ == subst_prop(model::attrs(o@), model::texts(active@), (v@[k])@),
        decreases v.len() - i,
    {
        let x = substitute_prop(o, active, &v[i]);
        out.push(x);
        i += 1;
    }
    assert(model::props(out@) =~= subst_props(model::attrs(o@), model::texts(active@), model::props(v@)));
    out
}

fn substitute_attrs(
    o: &Vec<(String, Expression)>,
    active: &Vec<String>,
    v: &Vec<(String, Expression)>,
) -> (r: Vec<(String, Expression)>)
    ensures
        model::attrs(r@) == subst_attrs(model::attrs(o@), model::texts(active@), model::attrs(v@)),
    decreases left(model::attrs(o@), model::texts(active@)), v,
{
    let mut out: Vec<(String, Expression)> = Vec::new();
    let mut i: usize = 0;
    while i < v.len()
        invariant
            i <= v.len(),
            out.len() == i,
            forall|k: int|
                0 <= k < i ==> model::attr(#[trigger] out@[k]) == subst_attr(model::attrs(o@), model::texts(active@), model::attr(v@[k])),
        decreases v.len() - i,
    {
        let x = substitute_attr(o, active, &v[i]);
        out.push(x);
        i += 1;
    }
    assert(model::attrs(out@) =~= subst_attrs(model::attrs(o@), model::texts(active@), model::attrs(v@)));
    out
}

fn maybe_subst_call(c: Calls, o: &Vec<(String, Expression)>, e: &Expression) -> (r: Expression)
    ensures
        r@ == settled(c, model::attrs(o@), e@),
{
    match c {
        Calls::Elements => {
            let active: Vec<String> = Vec::new();
            assert(model::texts(active@) =~= Seq::empty());
            subst_jsx_props_guarded(o, &active, e)
        },
        Calls::Others => calls::put_literals(o, 0, e),
    }
}

fn record_binding(o: &Vec<(String, Expression)>, name: &String, value: &Expression) -> (r: Vec<
    (String, Expression),
>)
    ensures
        model::attrs(r@) == bound(model::attrs(o@), name@, value@),
{
    let exprs: Vec<&Expression> = visit::of_expr(value);
    let mut written: Vec<String> = Vec::new();
    push_expr_writes(&exprs, &mut written);
    assert(model::texts(written@) =~= expr_writes(visit::expr_visits(value@)));
    let kept = drop_names(o, &written);
    let mut own: Vec<String> = Vec::new();
    push_name(&mut own, name);
    assert(model::texts(own@) =~= seq![name@]);
    let mut out = drop_names(&kept, &own);
    if let Expression::Object { .. } = value {
        let ghost before = model::attrs(out@);
        out.push((name.clone(), value.clone()));
        assert(model::attrs(out@) =~= before.push((name@, value@)));
    }
    out
}

fn rewrite_stmt_calls(c: Calls, o: &Vec<(String, Expression)>, s: Statement) -> (r: Statement)
    ensures
        r@ == value_resolved(c, model::attrs(o@), s@),
{
    match s {
        Statement::Expr(e) => Statement::Expr(maybe_subst_call(c, o, &e)),
        Statement::Return(Some(e)) => Statement::Return(Some(maybe_subst_call(c, o, &e))),
        Statement::Throw(e) => Statement::Throw(maybe_subst_call(c, o, &e)),
        Statement::Assign { target, value } => {
            let v = maybe_subst_call(c, o, &value);
            Statement::Assign { target, value: v }
        },
        other => other,
    }
}

fn resolve_step(c: Calls, o: &Vec<(String, Expression)>, s: &Statement) -> (r: (
    Statement,
    Vec<(String, Expression)>,
))
    ensures
        (r.0@, model::attrs(r.1@)) == step(c, model::attrs(o@), s@),
    decreases s, 1nat,
{
    match s {
        Statement::Let { name, value, kind } => {
            let v = maybe_subst_call(c, o, value);
            let after = record_binding(o, name, &v);
            (Statement::Let { name: name.clone(), value: v, kind: *kind }, after)
        },
        Statement::Assign { target: AssignTarget::Variable(name), value } => {
            let v = maybe_subst_call(c, o, value);
            let after = record_binding(o, name, &v);
            (
                Statement::Assign { target: AssignTarget::Variable(name.clone()), value: v },
                after,
            )
        },
        _ => {
            let t = rewrite_stmt_calls(c, o, resolve_nested(c, s));
            let after = drop_names(o, &written_names(&t));
            (t, after)
        },
    }
}

/// Resolves the properties of the factory calls of a list.
pub fn resolve_prop_object_vars(c: Calls, v: &Vec<Statement>) -> (r: Vec<Statement>)
    ensures
        model::stmts(r@) == resolved(c, model::stmts(v@)),
    decreases v, 1nat,
{
    let ghost all = model::stmts(v@);
    let mut out: Vec<Statement> = Vec::new();
    let mut o: Vec<(String, Expression)> = Vec::new();
    let mut i: usize = 0;
    assert(model::stmts(out@) =~= Seq::empty());
    assert(model::attrs(o@) =~= Seq::empty());
    while i < v.len()
        invariant
            i <= v.len(),
            all == model::stmts(v@),
            (model::stmts(out@), model::attrs(o@)) == run(c, all.take(i as int)),
        decreases v.len() - i,
    {
        assert(all.take(i + 1).drop_last() =~= all.take(i as int));
        assert(all[i as int] == v@[i as int]@);
        let ghost before = model::stmts(out@);
        let x = resolve_step(c, &o, &v[i]);
        let ghost t = x.0@;
        out.push(x.0);
        o = x.1;
        assert(model::stmts(out@) =~= before.push(t));
        i += 1;
    }
    assert(all.take(all.len() as int) =~= all);
    out
}

fn resolve_nested(c: Calls, s: &Statement) -> (r: Statement)
    ensures
        r@ == resolved_nested(c, s@),
    decreases s, 0nat,
{
    match s {
        Statement::If { condition, then_body, else_body } => Statement::If {
            condition: condition.clone(),
            then_body: resolve_prop_object_vars(c, then_body),
            else_body: resolve_prop_object_vars(c, else_body),
        },
        Statement::While { condition, body } => Statement::While {
            condition: condition.clone(),
            body: resolve_prop_object_vars(c, body),
        },
        Statement::DoWhile { body, condition } => Statement::DoWhile {
            body: resolve_prop_object_vars(c, body),
            condition: condition.clone(),
        },
        Statement::For { init, condition, update, body } => Statement::For {
            init: clone_opt_stmt(init),
            condition: clone_opt_expr(condition),
            update: clone_opt_stmt(update),
            body: resolve_prop_object_vars(c, body),
        },
        Statement::ForIn { variable, object, body } => Statement::ForIn {
            variable: variable.clone(),
            object: object.clone(),
            body: resolve_prop_object_vars(c, body),
        },
        Statement::ForOf { variable, iterable, body } => Statement::ForOf {
            variable: variable.clone(),
            iterable: iterable.clone(),
            body: resolve_prop_object_vars(c, body),
        },
        Statement::Block(body) => Statement::Block(resolve_prop_object_vars(c, body)),
        Statement::TryCatch { try_body, catch_param, catch_body, finally_body } => Statement::TryCatch {
            try_body: resolve_prop_object_vars(c, try_body),
            catch_param: clone_opt_text(catch_param),
            catch_body: resolve_prop_object_vars(c, catch_body),
            finally_body: resolve_prop_object_vars(c, finally_body),
        },
        Statement::Switch { discriminant, cases, default } => Statement::Switch {
            discriminant: discriminant.clone(),
            cases: resolve_nested_cases(c, cases),
            default: resolve_nested_default(c, default),
        },
        _ => s.clone(),
    }
}

fn resolve_nested_cases(c: Calls, v: &Vec<(Expression, Vec<Statement>)>) -> (r: Vec<(Expression, Vec<Statement>)>)
    ensures
        model::case_arms(r@) == resolved_nested_cases(c, model::case_arms(v@)),
    decreases v, 0nat,
{
    let mut out: Vec<(Expression, Vec<Statement>)> = Vec::new();
    let mut i: usize = 0;
    while i < v.len()
        invariant
            i <= v.len(),
            out.len() == i,
            forall|k: int|
                0 <= k < i ==> model::case_arm(#[trigger] out@[k]) == resolved_nested_case(c, 
                    model::case_arm(v@[k]),
                ),
        decreases v.len() - i,
    {
        out.push((v[i].0.clone(), resolve_prop_object_vars(c, &v[i].1)));
        i += 1;
    }
    assert(model::case_arms(out@) =~= resolved_nested_cases(c, model::case_arms(v@)));
    out
}

fn resolve_nested_default(c: Calls, d: &Option<Vec<Statement>>) -> (r: Option<Vec<Statement>>)
    ensures
        model::opt_stmts(r) == resolved_nested_default(c, model::opt_stmts(*d)),
    decreases d, 0nat,
{
    match d {
        Some(b) => Some(resolve_prop_object_vars(c, b)),
        None => None,
    }
}

} // verus!
