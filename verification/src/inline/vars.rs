//! Replaces variables by the values given to them.

use crate::ir::cloning::{clone_methods, clone_opt_text, clone_texts};
use crate::ir::model;
use crate::ir::model::{Expr, Key, Prop, Stmt, Target, Val};
use crate::ir::weight;
use crate::ir::{AssignTarget, Expression, ObjectProperty, PropertyKey, Statement, Value};
use crate::text;
use vstd::prelude::*;

verus! {

/// The value that a list of definitions gives a variable: that of the last one.
pub open spec fn value_in(m: Seq<(Seq<char>, Expr)>, n: Seq<char>) -> Option<Expr>
    decreases m.len(),
{
    if m.len() == 0 {
        None
    } else if m.last().0 == n {
        Some(m.last().1)
    } else {
        value_in(m.drop_last(), n)
    }
}

pub fn find_value<'a>(m: &'a Vec<(String, Expression)>, n: &str) -> (r: Option<&'a Expression>)
    ensures
        match r {
            Some(e) => value_in(model::attrs(m@), n@) == Some(e@),
            None => value_in(model::attrs(m@), n@) is None,
        },
{
    let ghost all = model::attrs(m@);
    let mut i: usize = m.len();
    assert(all.take(i as int) =~= all);
    while i > 0
        invariant
            i <= m.len(),
            all == model::attrs(m@),
            value_in(all, n@) == value_in(all.take(i as int), n@),
        decreases i,
    {
        assert(all.take(i as int).drop_last() =~= all.take(i - 1));
        assert(all[i - 1] == model::attr(m@[i - 1]));
        if text::same(&m[i - 1].0, n) {
            return Some(&m[i - 1].1);
        }
        i -= 1;
    }
    None
}

/// The value that takes the place of a variable.
pub open spec fn replacement(m: Seq<(Seq<char>, Expr)>, e: Expr) -> Option<Expr> {
    match e {
        Expr::Value(Val::Variable(n)) => value_in(m, n),
        _ => None,
    }
}

fn find_replacement(m: &Vec<(String, Expression)>, e: &Expression) -> (r: Option<Expression>)
    ensures
        model::opt_expr(r) == replacement(model::attrs(m@), e@),
{
    match e {
        Expression::Value(Value::Variable(n)) => match find_value(m, n) {
            Some(v) => Some(v.clone()),
            None => None,
        },
        _ => None,
    }
}

/// The expression with variables replaced by the values that `m` gives them.
pub open spec fn sub_expr(m: Seq<(Seq<char>, Expr)>, e: Expr) -> Expr
    decreases e,
{
    match replacement(m, e) {
        Some(x) => x,
        None => match e {
            Expr::Value(_) => e,
            Expr::Binary { op, left, right } => Expr::Binary {
                op,
                left: Box::new(sub_expr(m, *left)),
                right: Box::new(sub_expr(m, *right)),
            },
            Expr::Unary { op, operand } => Expr::Unary {
                op,
                operand: Box::new(sub_expr(m, *operand)),
            },
            Expr::Conditional { condition, then_expr, else_expr } => Expr::Conditional {
                condition: Box::new(sub_expr(m, *condition)),
                then_expr: Box::new(sub_expr(m, *then_expr)),
                else_expr: Box::new(sub_expr(m, *else_expr)),
            },
            Expr::Member { object, property, optional } => Expr::Member {
                object: Box::new(sub_expr(m, *object)),
                property: sub_key(m, property),
                optional,
            },
            Expr::Call { callee, arguments } => Expr::Call {
                callee: Box::new(sub_expr(m, *callee)),
                arguments: sub_exprs(m, arguments),
            },
            Expr::New { callee, arguments } => Expr::New {
                callee: Box::new(sub_expr(m, *callee)),
                arguments: sub_exprs(m, arguments),
            },
            Expr::Array { elements } => Expr::Array {
                elements: sub_elements(m, elements),
            },
            Expr::Object { properties } => Expr::Object {
                properties: sub_props(m, properties),
            },
            Expr::Function { .. } => e,
            Expr::Assignment { target, value } => Expr::Assignment {
                target: if *target is Value {
                    target
                } else {
                    Box::new(sub_expr(m, *target))
                },
                value: Box::new(sub_expr(m, *value)),
            },
            Expr::Spread(x) => Expr::Spread(Box::new(sub_expr(m, *x))),
            Expr::TemplateLiteral { quasis, expressions } => Expr::TemplateLiteral {
                quasis,
                expressions: sub_exprs(m, expressions),
            },
            Expr::RegExp { .. } => e,
            Expr::Yield { value, delegate } => Expr::Yield {
                value: Box::new(sub_expr(m, *value)),
                delegate,
            },
            Expr::Await(x) => Expr::Await(Box::new(sub_expr(m, *x))),
            Expr::JSXElement { tag, attributes, children } => Expr::JSXElement {
                tag,
                attributes: sub_attrs(m, attributes),
                children: sub_exprs(m, children),
            },
            Expr::Unknown { .. } => e,
        },
    }
}

pub open spec fn sub_key(m: Seq<(Seq<char>, Expr)>, e: Key) -> Key
    decreases e,
{
    match e {
        Key::Ident(_) => e,
        Key::String(_) => e,
        Key::Index(_) => e,
        Key::Computed(x) => Key::Computed(Box::new(sub_expr(m, *x))),
    }
}

pub open spec fn sub_target(m: Seq<(Seq<char>, Expr)>, e: Target) -> Target
    decreases e,
{
    match e {
        Target::Register(_) => e,
        Target::Variable(_) => e,
        Target::Member { object, property } => Target::Member {
            object: sub_expr(m, object),
            property,
        },
        Target::Index { object, key } => Target::Index {
            object: sub_expr(m, object),
            key: sub_expr(m, key),
        },
        Target::DestructuringArray(x) => Target::DestructuringArray(sub_slots(m, x)),
        Target::DestructuringArrayRest { elements, rest } => Target::DestructuringArrayRest {
            elements: sub_slots(m, elements),
            rest: Box::new(sub_target(m, *rest)),
        },
        Target::DestructuringObject(x) => Target::DestructuringObject(sub_fields(m, x)),
        Target::DestructuringObjectRest { properties, rest } => Target::DestructuringObjectRest {
            properties: sub_fields(m, properties),
            rest: Box::new(sub_target(m, *rest)),
        },
    }
}

pub open spec fn sub_stmt(m: Seq<(Seq<char>, Expr)>, e: Stmt) -> Stmt
    decreases e,
{
    match e {
        Stmt::Expr(x) => Stmt::Expr(sub_expr(m, x)),
        Stmt::Let { name, value, kind } => Stmt::Let {
            name,
            value: sub_expr(m, value),
            kind,
        },
        Stmt::Assign { target, value } => Stmt::Assign {
            target: sub_target(m, target),
            value: sub_expr(m, value),
        },
        Stmt::Return(x) => Stmt::Return(sub_opt_expr(m, x)),
        Stmt::Throw(x) => Stmt::Throw(sub_expr(m, x)),
        Stmt::If { condition, then_body, else_body } => Stmt::If {
            condition: sub_expr(m, condition),
            then_body: sub_stmts(m, then_body),
            else_body: sub_stmts(m, else_body),
        },
        Stmt::While { condition, body } => Stmt::While {
            condition: sub_expr(m, condition),
            body: sub_stmts(m, body),
        },
        Stmt::DoWhile { body, condition } => Stmt::DoWhile {
            body: sub_stmts(m, body),
            condition: sub_expr(m, condition),
        },
        Stmt::For { init, condition, update, body } => Stmt::For {
            init: sub_opt_stmt(m, init),
            condition: sub_opt_expr(m, condition),
            update: sub_opt_stmt(m, update),
            body: sub_stmts(m, body),
        },
        Stmt::ForIn { variable, object, body } => Stmt::ForIn {
            variable,
            object: sub_expr(m, object),
            body: sub_stmts(m, body),
        },
        Stmt::ForOf { variable, iterable, body } => Stmt::ForOf {
            variable,
            iterable: sub_expr(m, iterable),
            body: sub_stmts(m, body),
        },
        Stmt::Block(x) => Stmt::Block(sub_stmts(m, x)),
        Stmt::TryCatch { try_body, catch_param, catch_body, finally_body } => Stmt::TryCatch {
            try_body: sub_stmts(m, try_body),
            catch_param,
            catch_body: sub_stmts(m, catch_body),
            finally_body: sub_stmts(m, finally_body),
        },
        Stmt::Switch { discriminant, cases, default } => Stmt::Switch {
            discriminant: sub_expr(m, discriminant),
            cases: sub_cases(m, cases),
            default: sub_opt_stmts(m, default),
        },
        Stmt::Class { name, super_class, constructor, methods } => Stmt::Class {
            name,
            super_class: sub_opt_expr(m, super_class),
            constructor,
            methods,
        },
        Stmt::Comment(_) => e,
        Stmt::Break(_) => e,
        Stmt::Continue(_) => e,
    }
}

pub open spec fn sub_opt_expr(m: Seq<(Seq<char>, Expr)>, o: Option<Expr>) -> Option<Expr>
    decreases o,
{
    match o {
        Some(x) => Some(sub_expr(m, x)),
        None => None,
    }
}

pub open spec fn sub_exprs(m: Seq<(Seq<char>, Expr)>, s: Seq<Expr>) -> Seq<Expr>
    decreases s,
{
    Seq::new(
        s.len(),
        |i: int|
            if 0 <= i < s.len() {
                sub_expr(m, s[i])
            } else {
                arbitrary()
            },
    )
}

pub open spec fn sub_elements(m: Seq<(Seq<char>, Expr)>, s: Seq<Option<Expr>>) -> Seq<Option<Expr>>
    decreases s,
{
    Seq::new(
        s.len(),
        |i: int|
            if 0 <= i < s.len() {
                sub_opt_expr(m, s[i])
            } else {
                arbitrary()
            },
    )
}

pub open spec fn sub_prop(m: Seq<(Seq<char>, Expr)>, p: Prop) -> Prop
    decreases p,
{
    Prop { key: sub_key(m, p.key), value: sub_expr(m, p.value) }
}

pub open spec fn sub_props(m: Seq<(Seq<char>, Expr)>, s: Seq<Prop>) -> Seq<Prop>
    decreases s,
{
    Seq::new(
        s.len(),
        |i: int|
            if 0 <= i < s.len() {
                sub_prop(m, s[i])
            } else {
                arbitrary()
            },
    )
}

pub open spec fn sub_attr(m: Seq<(Seq<char>, Expr)>, a: (Seq<char>, Expr)) -> (Seq<char>, Expr)
    decreases a,
{
    (a.0, sub_expr(m, a.1))
}

pub open spec fn sub_attrs(m: Seq<(Seq<char>, Expr)>, s: Seq<(Seq<char>, Expr)>) -> Seq<(Seq<char>, Expr)>
    decreases s,
{
    Seq::new(
        s.len(),
        |i: int|
            if 0 <= i < s.len() {
                sub_attr(m, s[i])
            } else {
                arbitrary()
            },
    )
}

pub open spec fn sub_slot(
    m: Seq<(Seq<char>, Expr)>,
    o: Option<(Target, Option<Expr>)>,
) -> Option<(Target, Option<Expr>)>
    decreases o,
{
    match o {
        Some(p) => Some((sub_target(m, p.0), sub_opt_expr(m, p.1))),
        None => None,
    }
}

pub open spec fn sub_slots(m: Seq<(Seq<char>, Expr)>, s: Seq<Option<(Target, Option<Expr>)>>) -> Seq<Option<(Target, Option<Expr>)>>
    decreases s,
{
    Seq::new(
        s.len(),
        |i: int|
            if 0 <= i < s.len() {
                sub_slot(m, s[i])
            } else {
                arbitrary()
            },
    )
}

pub open spec fn sub_field(
    m: Seq<(Seq<char>, Expr)>,
    x: (Seq<char>, Target, Option<Expr>),
) -> (Seq<char>, Target, Option<Expr>)
    decreases x,
{
    (x.0, sub_target(m, x.1), sub_opt_expr(m, x.2))
}

pub open spec fn sub_fields(m: Seq<(Seq<char>, Expr)>, s: Seq<(Seq<char>, Target, Option<Expr>)>) -> Seq<(Seq<char>, Target, Option<Expr>)>
    decreases s,
{
    Seq::new(
        s.len(),
        |i: int|
            if 0 <= i < s.len() {
                sub_field(m, s[i])
            } else {
                arbitrary()
            },
    )
}

pub open spec fn sub_stmts(m: Seq<(Seq<char>, Expr)>, s: Seq<Stmt>) -> Seq<Stmt>
    decreases s,
{
    Seq::new(
        s.len(),
        |i: int|
            if 0 <= i < s.len() {
                sub_stmt(m, s[i])
            } else {
                arbitrary()
            },
    )
}

pub open spec fn sub_opt_stmt(m: Seq<(Seq<char>, Expr)>, o: Option<Box<Stmt>>) -> Option<Box<Stmt>>
    decreases o,
{
    match o {
        Some(x) => Some(Box::new(sub_stmt(m, *x))),
        None => None,
    }
}

pub open spec fn sub_opt_stmts(m: Seq<(Seq<char>, Expr)>, o: Option<Seq<Stmt>>) -> Option<Seq<Stmt>>
    decreases o,
{
    match o {
        Some(x) => Some(sub_stmts(m, x)),
        None => None,
    }
}

pub open spec fn sub_case(m: Seq<(Seq<char>, Expr)>, c: (Expr, Seq<Stmt>)) -> (Expr, Seq<Stmt>)
    decreases c,
{
    (sub_expr(m, c.0), sub_stmts(m, c.1))
}

pub open spec fn sub_cases(m: Seq<(Seq<char>, Expr)>, s: Seq<(Expr, Seq<Stmt>)>) -> Seq<(Expr, Seq<Stmt>)>
    decreases s,
{
    Seq::new(
        s.len(),
        |i: int|
            if 0 <= i < s.len() {
                sub_case(m, s[i])
            } else {
                arbitrary()
            },
    )
}

pub fn substitute_expr(m: &Vec<(String, Expression)>, e: &Expression) -> (r: Expression)
    ensures
        r@ == sub_expr(model::attrs(m@), e@),
    decreases e,
{
    if let Some(x) = find_replacement(m, e) {
        return x;
    }
    match e {
        Expression::Value(_) => e.clone(),
        Expression::Binary { op, left, right } => Expression::Binary {
            op: *op,
            left: Box::new(substitute_expr(m, left)),
            right: Box::new(substitute_expr(m, right)),
        },
        Expression::Unary { op, operand } => Expression::Unary {
            op: *op,
            operand: Box::new(substitute_expr(m, operand)),
        },
        Expression::Conditional { condition, then_expr, else_expr } => Expression::Conditional {
            condition: Box::new(substitute_expr(m, condition)),
            then_expr: Box::new(substitute_expr(m, then_expr)),
            else_expr: Box::new(substitute_expr(m, else_expr)),
        },
        Expression::Member { object, property, optional } => Expression::Member {
            object: Box::new(substitute_expr(m, object)),
            property: substitute_key(m, property),
            optional: *optional,
        },
        Expression::Call { callee, arguments } => Expression::Call {
            callee: Box::new(substitute_expr(m, callee)),
            arguments: substitute_exprs(m, arguments),
        },
        Expression::New { callee, arguments } => Expression::New {
            callee: Box::new(substitute_expr(m, callee)),
            arguments: substitute_exprs(m, arguments),
        },
        Expression::Array { elements } => Expression::Array {
            elements: substitute_elements(m, elements),
        },
        Expression::Object { properties } => Expression::Object {
            properties: substitute_props(m, properties),
        },
        Expression::Function { .. } => e.clone(),
        Expression::Assignment { target, value } => Expression::Assignment {
            target: match &**target {
                Expression::Value(_) => target.clone(),
                _ => Box::new(substitute_expr(m, target)),
            },
            value: Box::new(substitute_expr(m, value)),
        },
        Expression::Spread(x) => Expression::Spread(Box::new(substitute_expr(m, x))),
        Expression::TemplateLiteral { quasis, expressions } => Expression::TemplateLiteral {
            quasis: clone_texts(quasis),
            expressions: substitute_exprs(m, expressions),
        },
        Expression::RegExp { .. } => e.clone(),
        Expression::Yield { value, delegate } => Expression::Yield {
            value: Box::new(substitute_expr(m, value)),
            delegate: *delegate,
        },
        Expression::Await(x) => Expression::Await(Box::new(substitute_expr(m, x))),
        Expression::JSXElement { tag, attributes, children } => Expression::JSXElement {
            tag: tag.clone(),
            attributes: substitute_attrs(m, attributes),
            children: substitute_exprs(m, children),
        },
        Expression::Unknown { .. } => e.clone(),
    }
}

pub fn substitute_key(m: &Vec<(String, Expression)>, e: &PropertyKey) -> (r: PropertyKey)
    ensures
        r@ == sub_key(model::attrs(m@), e@),
    decreases e,
{
    match e {
        PropertyKey::Ident(_) => e.clone(),
        PropertyKey::String(_) => e.clone(),
        PropertyKey::Index(_) => e.clone(),
        PropertyKey::Computed(x) => PropertyKey::Computed(Box::new(substitute_expr(m, x))),
    }
}

pub fn substitute_target(m: &Vec<(String, Expression)>, e: &AssignTarget) -> (r: AssignTarget)
    ensures
        r@ == sub_target(model::attrs(m@), e@),
    decreases e,
{
    match e {
        AssignTarget::Register(_) => e.clone(),
        AssignTarget::Variable(_) => e.clone(),
        AssignTarget::Member { object, property } => AssignTarget::Member {
            object: substitute_expr(m, object),
            property: property.clone(),
        },
        AssignTarget::Index { object, key } => AssignTarget::Index {
            object: substitute_expr(m, object),
            key: substitute_expr(m, key),
        },
        AssignTarget::DestructuringArray(x) => AssignTarget::DestructuringArray(substitute_slots(m, x)),
        AssignTarget::DestructuringArrayRest { elements, rest } => AssignTarget::DestructuringArrayRest {
            elements: substitute_slots(m, elements),
            rest: Box::new(substitute_target(m, rest)),
        },
        AssignTarget::DestructuringObject(x) => AssignTarget::DestructuringObject(substitute_fields(m, x)),
        AssignTarget::DestructuringObjectRest { properties, rest } => AssignTarget::DestructuringObjectRest {
            properties: substitute_fields(m, properties),
            rest: Box::new(substitute_target(m, rest)),
        },
    }
}

pub fn substitute_stmt(m: &Vec<(String, Expression)>, e: &Statement) -> (r: Statement)
    ensures
        r@ == sub_stmt(model::attrs(m@), e@),
    decreases e,
{
    match e {
        Statement::Expr(x) => Statement::Expr(substitute_expr(m, x)),
        Statement::Let { name, value, kind } => Statement::Let {
            name: name.clone(),
            value: substitute_expr(m, value),
            kind: *kind,
        },
        Statement::Assign { target, value } => Statement::Assign {
            target: substitute_target(m, target),
            value: substitute_expr(m, value),
        },
        Statement::Return(x) => Statement::Return(substitute_opt_expr(m, x)),
        Statement::Throw(x) => Statement::Throw(substitute_expr(m, x)),
        Statement::If { condition, then_body, else_body } => Statement::If {
            condition: substitute_expr(m, condition),
            then_body: substitute_stmts(m, then_body),
            else_body: substitute_stmts(m, else_body),
        },
        Statement::While { condition, body } => Statement::While {
            condition: substitute_expr(m, condition),
            body: substitute_stmts(m, body),
        },
        Statement::DoWhile { body, condition } => Statement::DoWhile {
            body: substitute_stmts(m, body),
            condition: substitute_expr(m, condition),
        },
        Statement::For { init, condition, update, body } => Statement::For {
            init: substitute_opt_stmt(m, init),
            condition: substitute_opt_expr(m, condition),
            update: substitute_opt_stmt(m, update),
            body: substitute_stmts(m, body),
        },
        Statement::ForIn { variable, object, body } => Statement::ForIn {
            variable: variable.clone(),
            object: substitute_expr(m, object),
            body: substitute_stmts(m, body),
        },
        Statement::ForOf { variable, iterable, body } => Statement::ForOf {
            variable: variable.clone(),
            iterable: substitute_expr(m, iterable),
            body: substitute_stmts(m, body),
        },
        Statement::Block(x) => Statement::Block(substitute_stmts(m, x)),
        Statement::TryCatch { try_body, catch_param, catch_body, finally_body } => Statement::TryCatch {
            try_body: substitute_stmts(m, try_body),
            catch_param: clone_opt_text(catch_param),
            catch_body: substitute_stmts(m, catch_body),
            finally_body: substitute_stmts(m, finally_body),
        },
        Statement::Switch { discriminant, cases, default } => Statement::Switch {
            discriminant: substitute_expr(m, discriminant),
            cases: substitute_cases(m, cases),
            default: substitute_opt_stmts(m, default),
        },
        Statement::Class { name, super_class, constructor, methods } => Statement::Class {
            name: name.clone(),
            super_class: substitute_opt_expr(m, super_class),
            constructor: *constructor,
            methods: clone_methods(methods),
        },
        Statement::Comment(_) => e.clone(),
        Statement::Break(_) => e.clone(),
        Statement::Continue(_) => e.clone(),
    }
}

pub fn substitute_opt_expr(m: &Vec<(String, Expression)>, o: &Option<Expression>) -> (r: Option<Expression>)
    ensures
        model::opt_expr(r) == sub_opt_expr(model::attrs(m@), model::opt_expr(*o)),
    decreases o,
{
    match o {
        Some(x) => Some(substitute_expr(m, x)),
        None => None,
    }
}

pub fn substitute_exprs(m: &Vec<(String, Expression)>, v: &Vec<Expression>) -> (r: Vec<Expression>)
    ensures
        model::exprs(r@) == sub_exprs(model::attrs(m@), model::exprs(v@)),
    decreases v,
{
    let mut out: Vec<Expression> = Vec::new();
    let mut i: usize = 0;
    while i < v.len()
        invariant
            i <= v.len(),
            out.len() == i,
            forall|k: int|
                0 <= k < i ==> (#[trigger] out@[k])@ == sub_expr(model::attrs(m@), v@[k]@),
        decreases v.len() - i,
    {
        out.push(substitute_expr(m, &v[i]));
        i += 1;
    }
    assert(model::exprs(out@) =~= sub_exprs(model::attrs(m@), model::exprs(v@)));
    out
}

pub fn substitute_elements(m: &Vec<(String, Expression)>, v: &Vec<Option<Expression>>) -> (r: Vec<Option<Expression>>)
    ensures
        model::opt_exprs(r@) == sub_elements(model::attrs(m@), model::opt_exprs(v@)),
    decreases v,
{
    let mut out: Vec<Option<Expression>> = Vec::new();
    let mut i: usize = 0;
    while i < v.len()
        invariant
            i <= v.len(),
            out.len() == i,
            forall|k: int|
                0 <= k < i ==> model::opt_expr(#[trigger] out@[k]) == sub_opt_expr(model::attrs(m@), model::opt_expr(v@[k])),
        decreases v.len() - i,
    {
        out.push(substitute_opt_expr(m, &v[i]));
        i += 1;
    }
    assert(model::opt_exprs(out@) =~= sub_elements(model::attrs(m@), model::opt_exprs(v@)));
    out
}

pub fn substitute_props(m: &Vec<(String, Expression)>, v: &Vec<ObjectProperty>) -> (r: Vec<ObjectProperty>)
    ensures
        model::props(r@) == sub_props(model::attrs(m@), model::props(v@)),
    decreases v,
{
    let mut out: Vec<ObjectProperty> = Vec::new();
    let mut i: usize = 0;
    while i < v.len()
        invariant
            i <= v.len(),
            out.len() == i,
            forall|k: int|
                0 <= k < i ==> (#[trigger] out@[k])@ == sub_prop(model::attrs(m@), v@[k]@),
        decreases v.len() - i,
    {
        out.push(ObjectProperty {
            key: substitute_key(m, &v[i].key),
            value: substitute_expr(m, &v[i].value),
        });
        i += 1;
    }
    assert(model::props(out@) =~= sub_props(model::attrs(m@), model::props(v@)));
    out
}

pub fn substitute_attrs(m: &Vec<(String, Expression)>, v: &Vec<(String, Expression)>) -> (r: Vec<(String, Expression)>)
    ensures
        model::attrs(r@) == sub_attrs(model::attrs(m@), model::attrs(v@)),
    decreases v,
{
    let mut out: Vec<(String, Expression)> = Vec::new();
    let mut i: usize = 0;
    while i < v.len()
        invariant
            i <= v.len(),
            out.len() == i,
            forall|k: int|
                0 <= k < i ==> model::attr(#[trigger] out@[k]) == sub_attr(model::attrs(m@), model::attr(v@[k])),
        decreases v.len() - i,
    {
        out.push((v[i].0.clone(), substitute_expr(m, &v[i].1)));
        i += 1;
    }
    assert(model::attrs(out@) =~= sub_attrs(model::attrs(m@), model::attrs(v@)));
    out
}

pub fn substitute_slot(
    m: &Vec<(String, Expression)>,
    o: &Option<(AssignTarget, Option<Expression>)>,
) -> (r: Option<(AssignTarget, Option<Expression>)>)
    ensures
        model::slot(r) == sub_slot(model::attrs(m@), model::slot(*o)),
    decreases o,
{
    match o {
        Some(p) => Some((substitute_target(m, &p.0), substitute_opt_expr(m, &p.1))),
        None => None,
    }
}

pub fn substitute_slots(m: &Vec<(String, Expression)>, v: &Vec<Option<(AssignTarget, Option<Expression>)>>) -> (r: Vec<Option<(AssignTarget, Option<Expression>)>>)
    ensures
        model::slots(r@) == sub_slots(model::attrs(m@), model::slots(v@)),
    decreases v,
{
    let mut out: Vec<Option<(AssignTarget, Option<Expression>)>> = Vec::new();
    let mut i: usize = 0;
    while i < v.len()
        invariant
            i <= v.len(),
            out.len() == i,
            forall|k: int|
                0 <= k < i ==> model::slot(#[trigger] out@[k]) == sub_slot(model::attrs(m@), model::slot(v@[k])),
        decreases v.len() - i,
    {
        out.push(substitute_slot(m, &v[i]));
        i += 1;
    }
    assert(model::slots(out@) =~= sub_slots(model::attrs(m@), model::slots(v@)));
    out
}

pub fn substitute_fields(m: &Vec<(String, Expression)>, v: &Vec<(String, AssignTarget, Option<Expression>)>) -> (r: Vec<(String, AssignTarget, Option<Expression>)>)
    ensures
        model::fields(r@) == sub_fields(model::attrs(m@), model::fields(v@)),
    decreases v,
{
    let mut out: Vec<(String, AssignTarget, Option<Expression>)> = Vec::new();
    let mut i: usize = 0;
    while i < v.len()
        invariant
            i <= v.len(),
            out.len() == i,
            forall|k: int|
                0 <= k < i ==> model::field(#[trigger] out@[k]) == sub_field(model::attrs(m@), model::field(v@[k])),
        decreases v.len() - i,
    {
        out.push((v[i].0.clone(), substitute_target(m, &v[i].1), substitute_opt_expr(m, &v[i].2)));
        i += 1;
    }
    assert(model::fields(out@) =~= sub_fields(model::attrs(m@), model::fields(v@)));
    out
}

pub fn substitute_stmts(m: &Vec<(String, Expression)>, v: &Vec<Statement>) -> (r: Vec<Statement>)
    ensures
        model::stmts(r@) == sub_stmts(model::attrs(m@), model::stmts(v@)),
    decreases v,
{
    let mut out: Vec<Statement> = Vec::new();
    let mut i: usize = 0;
    while i < v.len()
        invariant
            i <= v.len(),
            out.len() == i,
            forall|k: int|
                0 <= k < i ==> (#[trigger] out@[k])@ == sub_stmt(model::attrs(m@), v@[k]@),
        decreases v.len() - i,
    {
        out.push(substitute_stmt(m, &v[i]));
        i += 1;
    }
    assert(model::stmts(out@) =~= sub_stmts(model::attrs(m@), model::stmts(v@)));
    out
}

pub fn substitute_opt_stmt(m: &Vec<(String, Expression)>, o: &Option<Box<Statement>>) -> (r: Option<Box<Statement>>)
    ensures
        model::opt_stmt(r) == sub_opt_stmt(model::attrs(m@), model::opt_stmt(*o)),
    decreases o,
{
    match o {
        Some(x) => Some(Box::new(substitute_stmt(m, x))),
        None => None,
    }
}

pub fn substitute_opt_stmts(m: &Vec<(String, Expression)>, o: &Option<Vec<Statement>>) -> (r: Option<Vec<Statement>>)
    ensures
        model::opt_stmts(r) == sub_opt_stmts(model::attrs(m@), model::opt_stmts(*o)),
    decreases o,
{
    match o {
        Some(x) => Some(substitute_stmts(m, x)),
        None => None,
    }
}

pub fn substitute_cases(m: &Vec<(String, Expression)>, v: &Vec<(Expression, Vec<Statement>)>) -> (r: Vec<(Expression, Vec<Statement>)>)
    ensures
        model::case_arms(r@) == sub_cases(model::attrs(m@), model::case_arms(v@)),
    decreases v,
{
    let mut out: Vec<(Expression, Vec<Statement>)> = Vec::new();
    let mut i: usize = 0;
    while i < v.len()
        invariant
            i <= v.len(),
            out.len() == i,
            forall|k: int|
                0 <= k < i ==> model::case_arm(#[trigger] out@[k]) == sub_case(model::attrs(m@), model::case_arm(v@[k])),
        decreases v.len() - i,
    {
        out.push((substitute_expr(m, &v[i].0), substitute_stmts(m, &v[i].1)));
        i += 1;
    }
    assert(model::case_arms(out@) =~= sub_cases(model::attrs(m@), model::case_arms(v@)));
    out
}

/// Replacing variables keeps the weight.
pub proof fn lemma_sub_keeps_weight(m: Seq<(Seq<char>, Expr)>, s: Seq<Stmt>)
    ensures
        weight::weight(sub_stmts(m, s)) == weight::weight(s),
    decreases s,
{
    let t = sub_stmts(m, s);
    if s.len() > 0 {
        assert(t.drop_last() =~= sub_stmts(m, s.drop_last()));
        lemma_sub_keeps_weight(m, s.drop_last());
        lemma_sub_keeps_stmt(m, s.last());
        assert(t.last() == sub_stmt(m, s.last()));
    }
}

pub proof fn lemma_sub_keeps_stmt(m: Seq<(Seq<char>, Expr)>, s: Stmt)
    ensures
        weight::weight_stmt(sub_stmt(m, s)) == weight::weight_stmt(s),
    decreases s,
{
    match s {
        Stmt::If { then_body, else_body, .. } => {
            lemma_sub_keeps_weight(m, then_body);
            lemma_sub_keeps_weight(m, else_body);
        },
        Stmt::While { body, .. } => lemma_sub_keeps_weight(m, body),
        Stmt::DoWhile { body, .. } => lemma_sub_keeps_weight(m, body),
        Stmt::For { init, update, body, .. } => {
            if let Some(x) = init {
                lemma_sub_keeps_stmt(m, *x);
            }
            if let Some(x) = update {
                lemma_sub_keeps_stmt(m, *x);
            }
            lemma_sub_keeps_weight(m, body);
        },
        Stmt::ForIn { body, .. } => lemma_sub_keeps_weight(m, body),
        Stmt::ForOf { body, .. } => lemma_sub_keeps_weight(m, body),
        Stmt::Block(body) => lemma_sub_keeps_weight(m, body),
        Stmt::TryCatch { try_body, catch_body, finally_body, .. } => {
            lemma_sub_keeps_weight(m, try_body);
            lemma_sub_keeps_weight(m, catch_body);
            lemma_sub_keeps_weight(m, finally_body);
        },
        Stmt::Switch { cases, default, .. } => {
            lemma_sub_keeps_cases(m, cases);
            if let Some(d) = default {
                lemma_sub_keeps_weight(m, d);
            }
        },
        _ => {},
    }
}

proof fn lemma_sub_keeps_cases(m: Seq<(Seq<char>, Expr)>, s: Seq<(Expr, Seq<Stmt>)>)
    ensures
        weight::weight_cases(sub_cases(m, s)) == weight::weight_cases(s),
    decreases s,
{
    let t = sub_cases(m, s);
    if s.len() > 0 {
        assert(t.drop_last() =~= sub_cases(m, s.drop_last()));
        lemma_sub_keeps_cases(m, s.drop_last());
        lemma_sub_keeps_weight(m, s.last().1);
        assert(t.last() == sub_case(m, s.last()));
    }
}

} // verus!
