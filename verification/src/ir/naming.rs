//! Replaces registers by named variables.

use super::cloning::{clone_methods, clone_opt_text, clone_texts};
use super::model;
use super::model::{Expr, Key, Prop, Stmt, Target, Val};
use super::{AssignTarget, Expression, ObjectProperty, PropertyKey, Statement, Value};
use std::collections::BTreeMap;
use vstd::prelude::*;

verus! {

/// The model of the names of registers.
pub open spec fn names(m: Map<u32, String>) -> Map<u32, Seq<char>> {
    m.map_values(|s: String| s@)
}

/// The variable that takes the place of a named register.
pub open spec fn variable_for(m: Map<u32, Seq<char>>, e: Expr) -> Option<Expr> {
    match e {
        Expr::Value(Val::Register(r)) => if m.dom().contains(r) {
            Some(Expr::Value(Val::Variable(m[r])))
        } else {
            None
        },
        _ => None,
    }
}

fn find_variable(m: &BTreeMap<u32, String>, e: &Expression) -> (r: Option<Expression>)
    ensures
        model::opt_expr(r) == variable_for(names(m@), e@),
{
    broadcast use vstd::std_specs::btree::group_btree_axioms;

    match e {
        Expression::Value(Value::Register(r)) => match m.get(r) {
            Some(n) => {
                assert(names(m@)[*r] == n@);
                Some(Expression::Value(Value::Variable(n.clone())))
            },
            None => None,
        },
        _ => None,
    }
}

/// The expression with the registers named in `m` replaced by variables.
pub open spec fn nam_expr(m: Map<u32, Seq<char>>, e: Expr) -> Expr
    decreases e,
{
    match variable_for(m, e) {
        Some(x) => x,
        None => match e {
            Expr::Value(_) => e,
            Expr::Binary { op, left, right } => Expr::Binary {
                op,
                left: Box::new(nam_expr(m, *left)),
                right: Box::new(nam_expr(m, *right)),
            },
            Expr::Unary { op, operand } => Expr::Unary {
                op,
                operand: Box::new(nam_expr(m, *operand)),
            },
            Expr::Conditional { condition, then_expr, else_expr } => Expr::Conditional {
                condition: Box::new(nam_expr(m, *condition)),
                then_expr: Box::new(nam_expr(m, *then_expr)),
                else_expr: Box::new(nam_expr(m, *else_expr)),
            },
            Expr::Member { object, property, optional } => Expr::Member {
                object: Box::new(nam_expr(m, *object)),
                property: nam_key(m, property),
                optional,
            },
            Expr::Call { callee, arguments } => Expr::Call {
                callee: Box::new(nam_expr(m, *callee)),
                arguments: nam_exprs(m, arguments),
            },
            Expr::New { callee, arguments } => Expr::New {
                callee: Box::new(nam_expr(m, *callee)),
                arguments: nam_exprs(m, arguments),
            },
            Expr::Array { elements } => Expr::Array {
                elements: nam_elements(m, elements),
            },
            Expr::Object { properties } => Expr::Object {
                properties: nam_props(m, properties),
            },
            Expr::Function { .. } => e,
            Expr::Assignment { target, value } => Expr::Assignment {
                target: Box::new(nam_expr(m, *target)),
                value: Box::new(nam_expr(m, *value)),
            },
            Expr::Spread(x) => Expr::Spread(Box::new(nam_expr(m, *x))),
            Expr::TemplateLiteral { quasis, expressions } => Expr::TemplateLiteral {
                quasis,
                expressions: nam_exprs(m, expressions),
            },
            Expr::RegExp { .. } => e,
            Expr::Yield { value, delegate } => Expr::Yield {
                value: Box::new(nam_expr(m, *value)),
                delegate,
            },
            Expr::Await(x) => Expr::Await(Box::new(nam_expr(m, *x))),
            Expr::JSXElement { tag, attributes, children } => Expr::JSXElement {
                tag,
                attributes: nam_attrs(m, attributes),
                children: nam_exprs(m, children),
            },
            Expr::Unknown { .. } => e,
        },
    }
}

pub open spec fn nam_key(m: Map<u32, Seq<char>>, e: Key) -> Key
    decreases e,
{
    match e {
        Key::Ident(_) => e,
        Key::String(_) => e,
        Key::Index(_) => e,
        Key::Computed(x) => Key::Computed(Box::new(nam_expr(m, *x))),
    }
}

pub open spec fn nam_target(m: Map<u32, Seq<char>>, e: Target) -> Target
    decreases e,
{
    match e {
        Target::Register(r) => if m.dom().contains(r) {
            Target::Variable(m[r])
        } else {
            e
        },
        Target::Variable(_) => e,
        Target::Member { object, property } => Target::Member {
            object: nam_expr(m, object),
            property,
        },
        Target::Index { object, key } => Target::Index {
            object: nam_expr(m, object),
            key: nam_expr(m, key),
        },
        Target::DestructuringArray(x) => Target::DestructuringArray(nam_slots(m, x)),
        Target::DestructuringArrayRest { elements, rest } => Target::DestructuringArrayRest {
            elements: nam_slots(m, elements),
            rest: Box::new(nam_target(m, *rest)),
        },
        Target::DestructuringObject(x) => Target::DestructuringObject(nam_fields(m, x)),
        Target::DestructuringObjectRest { properties, rest } => Target::DestructuringObjectRest {
            properties: nam_fields(m, properties),
            rest: Box::new(nam_target(m, *rest)),
        },
    }
}

pub open spec fn nam_stmt(m: Map<u32, Seq<char>>, e: Stmt) -> Stmt
    decreases e,
{
    match e {
        Stmt::Expr(x) => Stmt::Expr(nam_expr(m, x)),
        Stmt::Let { name, value, kind } => Stmt::Let {
            name,
            value: nam_expr(m, value),
            kind,
        },
        Stmt::Assign { target, value } => Stmt::Assign {
            target: nam_target(m, target),
            value: nam_expr(m, value),
        },
        Stmt::Return(x) => Stmt::Return(nam_opt_expr(m, x)),
        Stmt::Throw(x) => Stmt::Throw(nam_expr(m, x)),
        Stmt::If { condition, then_body, else_body } => Stmt::If {
            condition: nam_expr(m, condition),
            then_body: nam_stmts(m, then_body),
            else_body: nam_stmts(m, else_body),
        },
        Stmt::While { condition, body } => Stmt::While {
            condition: nam_expr(m, condition),
            body: nam_stmts(m, body),
        },
        Stmt::DoWhile { body, condition } => Stmt::DoWhile {
            body: nam_stmts(m, body),
            condition: nam_expr(m, condition),
        },
        Stmt::For { init, condition, update, body } => Stmt::For {
            init: nam_opt_stmt(m, init),
            condition: nam_opt_expr(m, condition),
            update: nam_opt_stmt(m, update),
            body: nam_stmts(m, body),
        },
        Stmt::ForIn { variable, object, body } => Stmt::ForIn {
            variable,
            object: nam_expr(m, object),
            body: nam_stmts(m, body),
        },
        Stmt::ForOf { variable, iterable, body } => Stmt::ForOf {
            variable,
            iterable: nam_expr(m, iterable),
            body: nam_stmts(m, body),
        },
        Stmt::Block(x) => Stmt::Block(nam_stmts(m, x)),
        Stmt::TryCatch { try_body, catch_param, catch_body, finally_body } => Stmt::TryCatch {
            try_body: nam_stmts(m, try_body),
            catch_param,
            catch_body: nam_stmts(m, catch_body),
            finally_body: nam_stmts(m, finally_body),
        },
        Stmt::Switch { discriminant, cases, default } => Stmt::Switch {
            discriminant: nam_expr(m, discriminant),
            cases: nam_cases(m, cases),
            default: nam_opt_stmts(m, default),
        },
        Stmt::Class { name, super_class, constructor, methods } => Stmt::Class {
            name,
            super_class: nam_opt_expr(m, super_class),
            constructor,
            methods,
        },
        Stmt::Comment(_) => e,
        Stmt::Break(_) => e,
        Stmt::Continue(_) => e,
    }
}

pub open spec fn nam_opt_expr(m: Map<u32, Seq<char>>, o: Option<Expr>) -> Option<Expr>
    decreases o,
{
    match o {
        Some(x) => Some(nam_expr(m, x)),
        None => None,
    }
}

pub open spec fn nam_exprs(m: Map<u32, Seq<char>>, s: Seq<Expr>) -> Seq<Expr>
    decreases s,
{
    Seq::new(
        s.len(),
        |i: int|
            if 0 <= i < s.len() {
                nam_expr(m, s[i])
            } else {
                arbitrary()
            },
    )
}

pub open spec fn nam_elements(m: Map<u32, Seq<char>>, s: Seq<Option<Expr>>) -> Seq<Option<Expr>>
    decreases s,
{
    Seq::new(
        s.len(),
        |i: int|
            if 0 <= i < s.len() {
                nam_opt_expr(m, s[i])
            } else {
                arbitrary()
            },
    )
}

pub open spec fn nam_prop(m: Map<u32, Seq<char>>, p: Prop) -> Prop
    decreases p,
{
    Prop { key: nam_key(m, p.key), value: nam_expr(m, p.value) }
}

pub open spec fn nam_props(m: Map<u32, Seq<char>>, s: Seq<Prop>) -> Seq<Prop>
    decreases s,
{
    Seq::new(
        s.len(),
        |i: int|
            if 0 <= i < s.len() {
                nam_prop(m, s[i])
            } else {
                arbitrary()
            },
    )
}

pub open spec fn nam_attr(m: Map<u32, Seq<char>>, a: (Seq<char>, Expr)) -> (Seq<char>, Expr)
    decreases a,
{
    (a.0, nam_expr(m, a.1))
}

pub open spec fn nam_attrs(m: Map<u32, Seq<char>>, s: Seq<(Seq<char>, Expr)>) -> Seq<(Seq<char>, Expr)>
    decreases s,
{
    Seq::new(
        s.len(),
        |i: int|
            if 0 <= i < s.len() {
                nam_attr(m, s[i])
            } else {
                arbitrary()
            },
    )
}

pub open spec fn nam_slot(
    m: Map<u32, Seq<char>>,
    o: Option<(Target, Option<Expr>)>,
) -> Option<(Target, Option<Expr>)>
    decreases o,
{
    match o {
        Some(p) => Some((nam_target(m, p.0), nam_opt_expr(m, p.1))),
        None => None,
    }
}

pub open spec fn nam_slots(m: Map<u32, Seq<char>>, s: Seq<Option<(Target, Option<Expr>)>>) -> Seq<Option<(Target, Option<Expr>)>>
    decreases s,
{
    Seq::new(
        s.len(),
        |i: int|
            if 0 <= i < s.len() {
                nam_slot(m, s[i])
            } else {
                arbitrary()
            },
    )
}

pub open spec fn nam_field(
    m: Map<u32, Seq<char>>,
    x: (Seq<char>, Target, Option<Expr>),
) -> (Seq<char>, Target, Option<Expr>)
    decreases x,
{
    (x.0, nam_target(m, x.1), nam_opt_expr(m, x.2))
}

pub open spec fn nam_fields(m: Map<u32, Seq<char>>, s: Seq<(Seq<char>, Target, Option<Expr>)>) -> Seq<(Seq<char>, Target, Option<Expr>)>
    decreases s,
{
    Seq::new(
        s.len(),
        |i: int|
            if 0 <= i < s.len() {
                nam_field(m, s[i])
            } else {
                arbitrary()
            },
    )
}

pub open spec fn nam_stmts(m: Map<u32, Seq<char>>, s: Seq<Stmt>) -> Seq<Stmt>
    decreases s,
{
    Seq::new(
        s.len(),
        |i: int|
            if 0 <= i < s.len() {
                nam_stmt(m, s[i])
            } else {
                arbitrary()
            },
    )
}

pub open spec fn nam_opt_stmt(m: Map<u32, Seq<char>>, o: Option<Box<Stmt>>) -> Option<Box<Stmt>>
    decreases o,
{
    match o {
        Some(x) => Some(Box::new(nam_stmt(m, *x))),
        None => None,
    }
}

pub open spec fn nam_opt_stmts(m: Map<u32, Seq<char>>, o: Option<Seq<Stmt>>) -> Option<Seq<Stmt>>
    decreases o,
{
    match o {
        Some(x) => Some(nam_stmts(m, x)),
        None => None,
    }
}

pub open spec fn nam_case(m: Map<u32, Seq<char>>, c: (Expr, Seq<Stmt>)) -> (Expr, Seq<Stmt>)
    decreases c,
{
    (nam_expr(m, c.0), nam_stmts(m, c.1))
}

pub open spec fn nam_cases(m: Map<u32, Seq<char>>, s: Seq<(Expr, Seq<Stmt>)>) -> Seq<(Expr, Seq<Stmt>)>
    decreases s,
{
    Seq::new(
        s.len(),
        |i: int|
            if 0 <= i < s.len() {
                nam_case(m, s[i])
            } else {
                arbitrary()
            },
    )
}

pub fn name_expr(m: &BTreeMap<u32, String>, e: &Expression) -> (r: Expression)
    ensures
        r@ == nam_expr(names(m@), e@),
    decreases e,
{
    if let Some(x) = find_variable(m, e) {
        return x;
    }
    match e {
        Expression::Value(_) => e.clone(),
        Expression::Binary { op, left, right } => Expression::Binary {
            op: *op,
            left: Box::new(name_expr(m, left)),
            right: Box::new(name_expr(m, right)),
        },
        Expression::Unary { op, operand } => Expression::Unary {
            op: *op,
            operand: Box::new(name_expr(m, operand)),
        },
        Expression::Conditional { condition, then_expr, else_expr } => Expression::Conditional {
            condition: Box::new(name_expr(m, condition)),
            then_expr: Box::new(name_expr(m, then_expr)),
            else_expr: Box::new(name_expr(m, else_expr)),
        },
        Expression::Member { object, property, optional } => Expression::Member {
            object: Box::new(name_expr(m, object)),
            property: name_key(m, property),
            optional: *optional,
        },
        Expression::Call { callee, arguments } => Expression::Call {
            callee: Box::new(name_expr(m, callee)),
            arguments: name_exprs(m, arguments),
        },
        Expression::New { callee, arguments } => Expression::New {
            callee: Box::new(name_expr(m, callee)),
            arguments: name_exprs(m, arguments),
        },
        Expression::Array { elements } => Expression::Array {
            elements: name_elements(m, elements),
        },
        Expression::Object { properties } => Expression::Object {
            properties: name_props(m, properties),
        },
        Expression::Function { .. } => e.clone(),
        Expression::Assignment { target, value } => Expression::Assignment {
            target: Box::new(name_expr(m, target)),
            value: Box::new(name_expr(m, value)),
        },
        Expression::Spread(x) => Expression::Spread(Box::new(name_expr(m, x))),
        Expression::TemplateLiteral { quasis, expressions } => Expression::TemplateLiteral {
            quasis: clone_texts(quasis),
            expressions: name_exprs(m, expressions),
        },
        Expression::RegExp { .. } => e.clone(),
        Expression::Yield { value, delegate } => Expression::Yield {
            value: Box::new(name_expr(m, value)),
            delegate: *delegate,
        },
        Expression::Await(x) => Expression::Await(Box::new(name_expr(m, x))),
        Expression::JSXElement { tag, attributes, children } => Expression::JSXElement {
            tag: tag.clone(),
            attributes: name_attrs(m, attributes),
            children: name_exprs(m, children),
        },
        Expression::Unknown { .. } => e.clone(),
    }
}

pub fn name_key(m: &BTreeMap<u32, String>, e: &PropertyKey) -> (r: PropertyKey)
    ensures
        r@ == nam_key(names(m@), e@),
    decreases e,
{
    match e {
        PropertyKey::Ident(_) => e.clone(),
        PropertyKey::String(_) => e.clone(),
        PropertyKey::Index(_) => e.clone(),
        PropertyKey::Computed(x) => PropertyKey::Computed(Box::new(name_expr(m, x))),
    }
}

pub fn name_target(m: &BTreeMap<u32, String>, e: &AssignTarget) -> (r: AssignTarget)
    ensures
        r@ == nam_target(names(m@), e@),
    decreases e,
{
    broadcast use vstd::std_specs::btree::group_btree_axioms;

    match e {
        AssignTarget::Register(r) => match m.get(r) {
            Some(n) => {
                assert(names(m@)[*r] == n@);
                AssignTarget::Variable(n.clone())
            },
            None => e.clone(),
        },
        AssignTarget::Variable(_) => e.clone(),
        AssignTarget::Member { object, property } => AssignTarget::Member {
            object: name_expr(m, object),
            property: property.clone(),
        },
        AssignTarget::Index { object, key } => AssignTarget::Index {
            object: name_expr(m, object),
            key: name_expr(m, key),
        },
        AssignTarget::DestructuringArray(x) => AssignTarget::DestructuringArray(name_slots(m, x)),
        AssignTarget::DestructuringArrayRest { elements, rest } => AssignTarget::DestructuringArrayRest {
            elements: name_slots(m, elements),
            rest: Box::new(name_target(m, rest)),
        },
        AssignTarget::DestructuringObject(x) => AssignTarget::DestructuringObject(name_fields(m, x)),
        AssignTarget::DestructuringObjectRest { properties, rest } => AssignTarget::DestructuringObjectRest {
            properties: name_fields(m, properties),
            rest: Box::new(name_target(m, rest)),
        },
    }
}

pub fn name_stmt(m: &BTreeMap<u32, String>, e: &Statement) -> (r: Statement)
    ensures
        r@ == nam_stmt(names(m@), e@),
    decreases e,
{
    match e {
        Statement::Expr(x) => Statement::Expr(name_expr(m, x)),
        Statement::Let { name, value, kind } => Statement::Let {
            name: name.clone(),
            value: name_expr(m, value),
            kind: *kind,
        },
        Statement::Assign { target, value } => Statement::Assign {
            target: name_target(m, target),
            value: name_expr(m, value),
        },
        Statement::Return(x) => Statement::Return(name_opt_expr(m, x)),
        Statement::Throw(x) => Statement::Throw(name_expr(m, x)),
        Statement::If { condition, then_body, else_body } => Statement::If {
            condition: name_expr(m, condition),
            then_body: name_stmts(m, then_body),
            else_body: name_stmts(m, else_body),
        },
        Statement::While { condition, body } => Statement::While {
            condition: name_expr(m, condition),
            body: name_stmts(m, body),
        },
        Statement::DoWhile { body, condition } => Statement::DoWhile {
            body: name_stmts(m, body),
            condition: name_expr(m, condition),
        },
        Statement::For { init, condition, update, body } => Statement::For {
            init: name_opt_stmt(m, init),
            condition: name_opt_expr(m, condition),
            update: name_opt_stmt(m, update),
            body: name_stmts(m, body),
        },
        Statement::ForIn { variable, object, body } => Statement::ForIn {
            variable: variable.clone(),
            object: name_expr(m, object),
            body: name_stmts(m, body),
        },
        Statement::ForOf { variable, iterable, body } => Statement::ForOf {
            variable: variable.clone(),
            iterable: name_expr(m, iterable),
            body: name_stmts(m, body),
        },
        Statement::Block(x) => Statement::Block(name_stmts(m, x)),
        Statement::TryCatch { try_body, catch_param, catch_body, finally_body } => Statement::TryCatch {
            try_body: name_stmts(m, try_body),
            catch_param: clone_opt_text(catch_param),
            catch_body: name_stmts(m, catch_body),
            finally_body: name_stmts(m, finally_body),
        },
        Statement::Switch { discriminant, cases, default } => Statement::Switch {
            discriminant: name_expr(m, discriminant),
            cases: name_cases(m, cases),
            default: name_opt_stmts(m, default),
        },
        Statement::Class { name, super_class, constructor, methods } => Statement::Class {
            name: name.clone(),
            super_class: name_opt_expr(m, super_class),
            constructor: *constructor,
            methods: clone_methods(methods),
        },
        Statement::Comment(_) => e.clone(),
        Statement::Break(_) => e.clone(),
        Statement::Continue(_) => e.clone(),
    }
}

pub fn name_opt_expr(m: &BTreeMap<u32, String>, o: &Option<Expression>) -> (r: Option<Expression>)
    ensures
        model::opt_expr(r) == nam_opt_expr(names(m@), model::opt_expr(*o)),
    decreases o,
{
    match o {
        Some(x) => Some(name_expr(m, x)),
        None => None,
    }
}

pub fn name_exprs(m: &BTreeMap<u32, String>, v: &Vec<Expression>) -> (r: Vec<Expression>)
    ensures
        model::exprs(r@) == nam_exprs(names(m@), model::exprs(v@)),
    decreases v,
{
    let mut out: Vec<Expression> = Vec::new();
    let mut i: usize = 0;
    while i < v.len()
        invariant
            i <= v.len(),
            out.len() == i,
            forall|k: int|
                0 <= k < i ==> (#[trigger] out@[k])@ == nam_expr(names(m@), v@[k]@),
        decreases v.len() - i,
    {
        out.push(name_expr(m, &v[i]));
        i += 1;
    }
    assert(model::exprs(out@) =~= nam_exprs(names(m@), model::exprs(v@)));
    out
}

pub fn name_elements(m: &BTreeMap<u32, String>, v: &Vec<Option<Expression>>) -> (r: Vec<Option<Expression>>)
    ensures
        model::opt_exprs(r@) == nam_elements(names(m@), model::opt_exprs(v@)),
    decreases v,
{
    let mut out: Vec<Option<Expression>> = Vec::new();
    let mut i: usize = 0;
    while i < v.len()
        invariant
            i <= v.len(),
            out.len() == i,
            forall|k: int|
                0 <= k < i ==> model::opt_expr(#[trigger] out@[k]) == nam_opt_expr(names(m@), model::opt_expr(v@[k])),
        decreases v.len() - i,
    {
        out.push(name_opt_expr(m, &v[i]));
        i += 1;
    }
    assert(model::opt_exprs(out@) =~= nam_elements(names(m@), model::opt_exprs(v@)));
    out
}

pub fn name_props(m: &BTreeMap<u32, String>, v: &Vec<ObjectProperty>) -> (r: Vec<ObjectProperty>)
    ensures
        model::props(r@) == nam_props(names(m@), model::props(v@)),
    decreases v,
{
    let mut out: Vec<ObjectProperty> = Vec::new();
    let mut i: usize = 0;
    while i < v.len()
        invariant
            i <= v.len(),
            out.len() == i,
            forall|k: int|
                0 <= k < i ==> (#[trigger] out@[k])@ == nam_prop(names(m@), v@[k]@),
        decreases v.len() - i,
    {
        out.push(ObjectProperty {
            key: name_key(m, &v[i].key),
            value: name_expr(m, &v[i].value),
        });
        i += 1;
    }
    assert(model::props(out@) =~= nam_props(names(m@), model::props(v@)));
    out
}

pub fn name_attrs(m: &BTreeMap<u32, String>, v: &Vec<(String, Expression)>) -> (r: Vec<(String, Expression)>)
    ensures
        model::attrs(r@) == nam_attrs(names(m@), model::attrs(v@)),
    decreases v,
{
    let mut out: Vec<(String, Expression)> = Vec::new();
    let mut i: usize = 0;
    while i < v.len()
        invariant
            i <= v.len(),
            out.len() == i,
            forall|k: int|
                0 <= k < i ==> model::attr(#[trigger] out@[k]) == nam_attr(names(m@), model::attr(v@[k])),
        decreases v.len() - i,
    {
        out.push((v[i].0.clone(), name_expr(m, &v[i].1)));
        i += 1;
    }
    assert(model::attrs(out@) =~= nam_attrs(names(m@), model::attrs(v@)));
    out
}

pub fn name_slot(
    m: &BTreeMap<u32, String>,
    o: &Option<(AssignTarget, Option<Expression>)>,
) -> (r: Option<(AssignTarget, Option<Expression>)>)
    ensures
        model::slot(r) == nam_slot(names(m@), model::slot(*o)),
    decreases o,
{
    match o {
        Some(p) => Some((name_target(m, &p.0), name_opt_expr(m, &p.1))),
        None => None,
    }
}

pub fn name_slots(m: &BTreeMap<u32, String>, v: &Vec<Option<(AssignTarget, Option<Expression>)>>) -> (r: Vec<Option<(AssignTarget, Option<Expression>)>>)
    ensures
        model::slots(r@) == nam_slots(names(m@), model::slots(v@)),
    decreases v,
{
    let mut out: Vec<Option<(AssignTarget, Option<Expression>)>> = Vec::new();
    let mut i: usize = 0;
    while i < v.len()
        invariant
            i <= v.len(),
            out.len() == i,
            forall|k: int|
                0 <= k < i ==> model::slot(#[trigger] out@[k]) == nam_slot(names(m@), model::slot(v@[k])),
        decreases v.len() - i,
    {
        out.push(name_slot(m, &v[i]));
        i += 1;
    }
    assert(model::slots(out@) =~= nam_slots(names(m@), model::slots(v@)));
    out
}

pub fn name_fields(m: &BTreeMap<u32, String>, v: &Vec<(String, AssignTarget, Option<Expression>)>) -> (r: Vec<(String, AssignTarget, Option<Expression>)>)
    ensures
        model::fields(r@) == nam_fields(names(m@), model::fields(v@)),
    decreases v,
{
    let mut out: Vec<(String, AssignTarget, Option<Expression>)> = Vec::new();
    let mut i: usize = 0;
    while i < v.len()
        invariant
            i <= v.len(),
            out.len() == i,
            forall|k: int|
                0 <= k < i ==> model::field(#[trigger] out@[k]) == nam_field(names(m@), model::field(v@[k])),
        decreases v.len() - i,
    {
        out.push((v[i].0.clone(), name_target(m, &v[i].1), name_opt_expr(m, &v[i].2)));
        i += 1;
    }
    assert(model::fields(out@) =~= nam_fields(names(m@), model::fields(v@)));
    out
}

pub fn name_stmts(m: &BTreeMap<u32, String>, v: &Vec<Statement>) -> (r: Vec<Statement>)
    ensures
        model::stmts(r@) == nam_stmts(names(m@), model::stmts(v@)),
    decreases v,
{
    let mut out: Vec<Statement> = Vec::new();
    let mut i: usize = 0;
    while i < v.len()
        invariant
            i <= v.len(),
            out.len() == i,
            forall|k: int|
                0 <= k < i ==> (#[trigger] out@[k])@ == nam_stmt(names(m@), v@[k]@),
        decreases v.len() - i,
    {
        out.push(name_stmt(m, &v[i]));
        i += 1;
    }
    assert(model::stmts(out@) =~= nam_stmts(names(m@), model::stmts(v@)));
    out
}

pub fn name_opt_stmt(m: &BTreeMap<u32, String>, o: &Option<Box<Statement>>) -> (r: Option<Box<Statement>>)
    ensures
        model::opt_stmt(r) == nam_opt_stmt(names(m@), model::opt_stmt(*o)),
    decreases o,
{
    match o {
        Some(x) => Some(Box::new(name_stmt(m, x))),
        None => None,
    }
}

pub fn name_opt_stmts(m: &BTreeMap<u32, String>, o: &Option<Vec<Statement>>) -> (r: Option<Vec<Statement>>)
    ensures
        model::opt_stmts(r) == nam_opt_stmts(names(m@), model::opt_stmts(*o)),
    decreases o,
{
    match o {
        Some(x) => Some(name_stmts(m, x)),
        None => None,
    }
}

pub fn name_cases(m: &BTreeMap<u32, String>, v: &Vec<(Expression, Vec<Statement>)>) -> (r: Vec<(Expression, Vec<Statement>)>)
    ensures
        model::case_arms(r@) == nam_cases(names(m@), model::case_arms(v@)),
    decreases v,
{
    let mut out: Vec<(Expression, Vec<Statement>)> = Vec::new();
    let mut i: usize = 0;
    while i < v.len()
        invariant
            i <= v.len(),
            out.len() == i,
            forall|k: int|
                0 <= k < i ==> model::case_arm(#[trigger] out@[k]) == nam_case(names(m@), model::case_arm(v@[k])),
        decreases v.len() - i,
    {
        out.push((name_expr(m, &v[i].0), name_stmts(m, &v[i].1)));
        i += 1;
    }
    assert(model::case_arms(out@) =~= nam_cases(names(m@), model::case_arms(v@)));
    out
}

/// Replaces the registers named in `m` by variables, in what is read and in what is written.
pub fn rename_registers(stmts: Vec<Statement>, m: &BTreeMap<u32, String>) -> (r: Vec<Statement>)
    ensures
        model::stmts(r@) == nam_stmts(names(m@), model::stmts(stmts@)),
{
    name_stmts(m, &stmts)
}

} // verus!
