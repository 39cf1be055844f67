//! Replaces hoisted loads by their bindings.

use super::detect;
use super::detect::loader_call;
use super::kinds::{HoistKey, LoaderKind};
use crate::dict::Dict;
use crate::ir::cloning::{clone_methods, clone_opt_text, clone_texts};
use crate::ir::model;
use crate::ir::model::{Expr, Key, Prop, Stmt, Target, Val};
use crate::ir::{AssignTarget, Expression, ObjectProperty, PropertyKey, Statement, Value};
use vstd::prelude::*;

verus! {

/// The bindings of hoisted loads, and how loads are recognised.
#[verifier::ext_equal]
pub struct Hoisting {
    pub bindings: Seq<(HoistKey, Seq<char>)>,
    pub aliases: Map<Seq<char>, LoaderKind>,
    pub deps: Seq<u32>,
}

/// Replaces each bound load by its binding.
pub struct LoaderRewriter<'a> {
    pub bindings: &'a Vec<(HoistKey, String)>,
    pub aliases: &'a Dict<LoaderKind>,
    pub deps: &'a Vec<u32>,
}

/// The model of a list of bindings.
pub open spec fn named_keys(s: Seq<(HoistKey, String)>) -> Seq<(HoistKey, Seq<char>)> {
    s.map_values(|p: (HoistKey, String)| (p.0, p.1@))
}

impl LoaderRewriter<'_> {
    pub open spec fn view(&self) -> Hoisting {
        Hoisting {
            bindings: named_keys(self.bindings@),
            aliases: self.aliases@,
            deps: self.deps@,
        }
    }
}

/// The value that a list of entries gives a key: that of the first entry.
pub open spec fn first_of<T>(s: Seq<(HoistKey, T)>, k: HoistKey) -> Option<T>
    decreases s.len(),
{
    if s.len() == 0 {
        None
    } else {
        match first_of(s.drop_last(), k) {
            Some(v) => Some(v),
            None => if s.last().0 == k {
                Some(s.last().1)
            } else {
                None
            },
        }
    }
}

pub fn find_name(v: &Vec<(HoistKey, String)>, k: HoistKey) -> (r: Option<&String>)
    ensures
        match r {
            Some(n) => first_of(named_keys(v@), k) == Some(n@),
            None => first_of(named_keys(v@), k) is None,
        },
{
    let ghost all = named_keys(v@);
    let mut found: Option<&String> = None;
    let mut i: usize = 0;
    while i < v.len()
        invariant
            i <= v.len(),
            all == named_keys(v@),
            match found {
                Some(n) => first_of(all.take(i as int), k) == Some(n@),
                None => first_of(all.take(i as int), k) is None,
            },
        decreases v.len() - i,
    {
        assert(all.take(i + 1).drop_last() =~= all.take(i as int));
        if found.is_none() && v[i].0 == k {
            found = Some(&v[i].1);
        }
        i += 1;
    }
    assert(all.take(all.len() as int) =~= all);
    found
}

/// The binding that stands for a load.
pub open spec fn binding_of(m: Hoisting, e: Expr) -> Option<Expr> {
    match detect::load_of(e, m.aliases, m.deps) {
        Some(k) => match first_of(m.bindings, k) {
            Some(n) => Some(Expr::Value(Val::Variable(n))),
            None => None,
        },
        None => None,
    }
}

fn find_binding(m: &LoaderRewriter<'_>, e: &Expression) -> (r: Option<Expression>)
    ensures
        model::opt_expr(r) == binding_of(m@, e@),
{
    match loader_call(e, m.aliases, m.deps) {
        Some(k) => match find_name(m.bindings, k) {
            Some(n) => Some(Expression::Value(Value::Variable(n.clone()))),
            None => None,
        },
        None => None,
    }
}

/// The expression with every bound load replaced by its binding.
pub open spec fn rw_expr(m: Hoisting, e: Expr) -> Expr
    decreases e,
{
    match binding_of(m, e) {
        Some(x) => x,
        None => match e {
            Expr::Value(_) => e,
            Expr::Binary { op, left, right } => Expr::Binary {
                op,
                left: Box::new(rw_expr(m, *left)),
                right: Box::new(rw_expr(m, *right)),
            },
            Expr::Unary { op, operand } => Expr::Unary {
                op,
                operand: Box::new(rw_expr(m, *operand)),
            },
            Expr::Conditional { condition, then_expr, else_expr } => Expr::Conditional {
                condition: Box::new(rw_expr(m, *condition)),
                then_expr: Box::new(rw_expr(m, *then_expr)),
                else_expr: Box::new(rw_expr(m, *else_expr)),
            },
            Expr::Member { object, property, optional } => Expr::Member {
                object: Box::new(rw_expr(m, *object)),
                property: rw_key(m, property),
                optional,
            },
            Expr::Call { callee, arguments } => Expr::Call {
                callee: Box::new(rw_expr(m, *callee)),
                arguments: rw_exprs(m, arguments),
            },
            Expr::New { callee, arguments } => Expr::New {
                callee: Box::new(rw_expr(m, *callee)),
                arguments: rw_exprs(m, arguments),
            },
            Expr::Array { elements } => Expr::Array {
                elements: rw_elements(m, elements),
            },
            Expr::Object { properties } => Expr::Object {
                properties: rw_props(m, properties),
            },
            Expr::Function { .. } => e,
            Expr::Assignment { target, value } => Expr::Assignment {
                target: Box::new(rw_expr(m, *target)),
                value: Box::new(rw_expr(m, *value)),
            },
            Expr::Spread(x) => Expr::Spread(Box::new(rw_expr(m, *x))),
            Expr::TemplateLiteral { quasis, expressions } => Expr::TemplateLiteral {
                quasis,
                expressions: rw_exprs(m, expressions),
            },
            Expr::RegExp { .. } => e,
            Expr::Yield { value, delegate } => Expr::Yield {
                value: Box::new(rw_expr(m, *value)),
                delegate,
            },
            Expr::Await(x) => Expr::Await(Box::new(rw_expr(m, *x))),
            Expr::JSXElement { tag, attributes, children } => Expr::JSXElement {
                tag,
                attributes: rw_attrs(m, attributes),
                children: rw_exprs(m, children),
            },
            Expr::Unknown { .. } => e,
        },
    }
}

pub open spec fn rw_key(m: Hoisting, e: Key) -> Key
    decreases e,
{
    match e {
        Key::Ident(_) => e,
        Key::String(_) => e,
        Key::Index(_) => e,
        Key::Computed(x) => Key::Computed(Box::new(rw_expr(m, *x))),
    }
}

pub open spec fn rw_target(m: Hoisting, e: Target) -> Target
    decreases e,
{
    match e {
        Target::Register(_) => e,
        Target::Variable(_) => e,
        Target::Member { object, property } => Target::Member {
            object: rw_expr(m, object),
            property,
        },
        Target::Index { object, key } => Target::Index {
            object: rw_expr(m, object),
            key: rw_expr(m, key),
        },
        Target::DestructuringArray(x) => Target::DestructuringArray(rw_slots(m, x)),
        Target::DestructuringArrayRest { elements, rest } => Target::DestructuringArrayRest {
            elements: rw_slots(m, elements),
            rest: Box::new(rw_target(m, *rest)),
        },
        Target::DestructuringObject(x) => Target::DestructuringObject(rw_fields(m, x)),
        Target::DestructuringObjectRest { properties, rest } => Target::DestructuringObjectRest {
            properties: rw_fields(m, properties),
            rest: Box::new(rw_target(m, *rest)),
        },
    }
}

pub open spec fn rw_stmt(m: Hoisting, e: Stmt) -> Stmt
    decreases e,
{
    match e {
        Stmt::Expr(x) => Stmt::Expr(rw_expr(m, x)),
        Stmt::Let { name, value, kind } => Stmt::Let {
            name,
            value: rw_expr(m, value),
            kind,
        },
        Stmt::Assign { target, value } => Stmt::Assign {
            target: rw_target(m, target),
            value: rw_expr(m, value),
        },
        Stmt::Return(x) => Stmt::Return(rw_opt_expr(m, x)),
        Stmt::Throw(x) => Stmt::Throw(rw_expr(m, x)),
        Stmt::If { condition, then_body, else_body } => Stmt::If {
            condition: rw_expr(m, condition),
            then_body: rw_stmts(m, then_body),
            else_body: rw_stmts(m, else_body),
        },
        Stmt::While { condition, body } => Stmt::While {
            condition: rw_expr(m, condition),
            body: rw_stmts(m, body),
        },
        Stmt::DoWhile { body, condition } => Stmt::DoWhile {
            body: rw_stmts(m, body),
            condition: rw_expr(m, condition),
        },
        Stmt::For { init, condition, update, body } => Stmt::For {
            init: rw_opt_stmt(m, init),
            condition: rw_opt_expr(m, condition),
            update: rw_opt_stmt(m, update),
            body: rw_stmts(m, body),
        },
        Stmt::ForIn { variable, object, body } => Stmt::ForIn {
            variable,
            object: rw_expr(m, object),
            body: rw_stmts(m, body),
        },
        Stmt::ForOf { variable, iterable, body } => Stmt::ForOf {
            variable,
            iterable: rw_expr(m, iterable),
            body: rw_stmts(m, body),
        },
        Stmt::Block(x) => Stmt::Block(rw_stmts(m, x)),
        Stmt::TryCatch { try_body, catch_param, catch_body, finally_body } => Stmt::TryCatch {
            try_body: rw_stmts(m, try_body),
            catch_param,
            catch_body: rw_stmts(m, catch_body),
            finally_body: rw_stmts(m, finally_body),
        },
        Stmt::Switch { discriminant, cases, default } => Stmt::Switch {
            discriminant: rw_expr(m, discriminant),
            cases: rw_cases(m, cases),
            default: rw_opt_stmts(m, default),
        },
        Stmt::Class { name, super_class, constructor, methods } => Stmt::Class {
            name,
            super_class: rw_opt_expr(m, super_class),
            constructor,
            methods,
        },
        Stmt::Comment(_) => e,
        Stmt::Break(_) => e,
        Stmt::Continue(_) => e,
    }
}

pub open spec fn rw_opt_expr(m: Hoisting, o: Option<Expr>) -> Option<Expr>
    decreases o,
{
    match o {
        Some(x) => Some(rw_expr(m, x)),
        None => None,
    }
}

pub open spec fn rw_exprs(m: Hoisting, s: Seq<Expr>) -> Seq<Expr>
    decreases s,
{
    Seq::new(
        s.len(),
        |i: int|
            if 0 <= i < s.len() {
                rw_expr(m, s[i])
            } else {
                arbitrary()
            },
    )
}

pub open spec fn rw_elements(m: Hoisting, s: Seq<Option<Expr>>) -> Seq<Option<Expr>>
    decreases s,
{
    Seq::new(
        s.len(),
        |i: int|
            if 0 <= i < s.len() {
                rw_opt_expr(m, s[i])
            } else {
                arbitrary()
            },
    )
}

pub open spec fn rw_prop(m: Hoisting, p: Prop) -> Prop
    decreases p,
{
    Prop { key: rw_key(m, p.key), value: rw_expr(m, p.value) }
}

pub open spec fn rw_props(m: Hoisting, s: Seq<Prop>) -> Seq<Prop>
    decreases s,
{
    Seq::new(
        s.len(),
        |i: int|
            if 0 <= i < s.len() {
                rw_prop(m, s[i])
            } else {
                arbitrary()
            },
    )
}

pub open spec fn rw_attr(m: Hoisting, a: (Seq<char>, Expr)) -> (Seq<char>, Expr)
    decreases a,
{
    (a.0, rw_expr(m, a.1))
}

pub open spec fn rw_attrs(m: Hoisting, s: Seq<(Seq<char>, Expr)>) -> Seq<(Seq<char>, Expr)>
    decreases s,
{
    Seq::new(
        s.len(),
        |i: int|
            if 0 <= i < s.len() {
                rw_attr(m, s[i])
            } else {
                arbitrary()
            },
    )
}

pub open spec fn rw_slot(
    m: Hoisting,
    o: Option<(Target, Option<Expr>)>,
) -> Option<(Target, Option<Expr>)>
    decreases o,
{
    match o {
        Some(p) => Some((rw_target(m, p.0), rw_opt_expr(m, p.1))),
        None => None,
    }
}

pub open spec fn rw_slots(m: Hoisting, s: Seq<Option<(Target, Option<Expr>)>>) -> Seq<Option<(Target, Option<Expr>)>>
    decreases s,
{
    Seq::new(
        s.len(),
        |i: int|
            if 0 <= i < s.len() {
                rw_slot(m, s[i])
            } else {
                arbitrary()
            },
    )
}

pub open spec fn rw_field(
    m: Hoisting,
    x: (Seq<char>, Target, Option<Expr>),
) -> (Seq<char>, Target, Option<Expr>)
    decreases x,
{
    (x.0, rw_target(m, x.1), rw_opt_expr(m, x.2))
}

pub open spec fn rw_fields(m: Hoisting, s: Seq<(Seq<char>, Target, Option<Expr>)>) -> Seq<(Seq<char>, Target, Option<Expr>)>
    decreases s,
{
    Seq::new(
        s.len(),
        |i: int|
            if 0 <= i < s.len() {
                rw_field(m, s[i])
            } else {
                arbitrary()
            },
    )
}

pub open spec fn rw_stmts(m: Hoisting, s: Seq<Stmt>) -> Seq<Stmt>
    decreases s,
{
    Seq::new(
        s.len(),
        |i: int|
            if 0 <= i < s.len() {
                rw_stmt(m, s[i])
            } else {
                arbitrary()
            },
    )
}

pub open spec fn rw_opt_stmt(m: Hoisting, o: Option<Box<Stmt>>) -> Option<Box<Stmt>>
    decreases o,
{
    match o {
        Some(x) => Some(Box::new(rw_stmt(m, *x))),
        None => None,
    }
}

pub open spec fn rw_opt_stmts(m: Hoisting, o: Option<Seq<Stmt>>) -> Option<Seq<Stmt>>
    decreases o,
{
    match o {
        Some(x) => Some(rw_stmts(m, x)),
        None => None,
    }
}

pub open spec fn rw_case(m: Hoisting, c: (Expr, Seq<Stmt>)) -> (Expr, Seq<Stmt>)
    decreases c,
{
    (rw_expr(m, c.0), rw_stmts(m, c.1))
}

pub open spec fn rw_cases(m: Hoisting, s: Seq<(Expr, Seq<Stmt>)>) -> Seq<(Expr, Seq<Stmt>)>
    decreases s,
{
    Seq::new(
        s.len(),
        |i: int|
            if 0 <= i < s.len() {
                rw_case(m, s[i])
            } else {
                arbitrary()
            },
    )
}

pub fn rewrite_expr(m: &LoaderRewriter<'_>, e: &Expression) -> (r: Expression)
    ensures
        r@ == rw_expr(m@, e@),
    decreases e,
{
    if let Some(x) = find_binding(m, e) {
        return x;
    }
    match e {
        Expression::Value(_) => e.clone(),
        Expression::Binary { op, left, right } => Expression::Binary {
            op: *op,
            left: Box::new(rewrite_expr(m, left)),
            right: Box::new(rewrite_expr(m, right)),
        },
        Expression::Unary { op, operand } => Expression::Unary {
            op: *op,
            operand: Box::new(rewrite_expr(m, operand)),
        },
        Expression::Conditional { condition, then_expr, else_expr } => Expression::Conditional {
            condition: Box::new(rewrite_expr(m, condition)),
            then_expr: Box::new(rewrite_expr(m, then_expr)),
            else_expr: Box::new(rewrite_expr(m, else_expr)),
        },
        Expression::Member { object, property, optional } => Expression::Member {
            object: Box::new(rewrite_expr(m, object)),
            property: rewrite_key(m, property),
            optional: *optional,
        },
        Expression::Call { callee, arguments } => Expression::Call {
            callee: Box::new(rewrite_expr(m, callee)),
            arguments: rewrite_exprs(m, arguments),
        },
        Expression::New { callee, arguments } => Expression::New {
            callee: Box::new(rewrite_expr(m, callee)),
            arguments: rewrite_exprs(m, arguments),
        },
        Expression::Array { elements } => Expression::Array {
            elements: rewrite_elements(m, elements),
        },
        Expression::Object { properties } => Expression::Object {
            properties: rewrite_props(m, properties),
        },
        Expression::Function { .. } => e.clone(),
        Expression::Assignment { target, value } => Expression::Assignment {
            target: Box::new(rewrite_expr(m, target)),
            value: Box::new(rewrite_expr(m, value)),
        },
        Expression::Spread(x) => Expression::Spread(Box::new(rewrite_expr(m, x))),
        Expression::TemplateLiteral { quasis, expressions } => Expression::TemplateLiteral {
            quasis: clone_texts(quasis),
            expressions: rewrite_exprs(m, expressions),
        },
        Expression::RegExp { .. } => e.clone(),
        Expression::Yield { value, delegate } => Expression::Yield {
            value: Box::new(rewrite_expr(m, value)),
            delegate: *delegate,
        },
        Expression::Await(x) => Expression::Await(Box::new(rewrite_expr(m, x))),
        Expression::JSXElement { tag, attributes, children } => Expression::JSXElement {
            tag: tag.clone(),
            attributes: rewrite_attrs(m, attributes),
            children: rewrite_exprs(m, children),
        },
        Expression::Unknown { .. } => e.clone(),
    }
}

pub fn rewrite_key(m: &LoaderRewriter<'_>, e: &PropertyKey) -> (r: PropertyKey)
    ensures
        r@ == rw_key(m@, e@),
    decreases e,
{
    match e {
        PropertyKey::Ident(_) => e.clone(),
        PropertyKey::String(_) => e.clone(),
        PropertyKey::Index(_) => e.clone(),
        PropertyKey::Computed(x) => PropertyKey::Computed(Box::new(rewrite_expr(m, x))),
    }
}

pub fn rewrite_target(m: &LoaderRewriter<'_>, e: &AssignTarget) -> (r: AssignTarget)
    ensures
        r@ == rw_target(m@, e@),
    decreases e,
{
    match e {
        AssignTarget::Register(_) => e.clone(),
        AssignTarget::Variable(_) => e.clone(),
        AssignTarget::Member { object, property } => AssignTarget::Member {
            object: rewrite_expr(m, object),
            property: property.clone(),
        },
        AssignTarget::Index { object, key } => AssignTarget::Index {
            object: rewrite_expr(m, object),
            key: rewrite_expr(m, key),
        },
        AssignTarget::DestructuringArray(x) => AssignTarget::DestructuringArray(rewrite_slots(m, x)),
        AssignTarget::DestructuringArrayRest { elements, rest } => AssignTarget::DestructuringArrayRest {
            elements: rewrite_slots(m, elements),
            rest: Box::new(rewrite_target(m, rest)),
        },
        AssignTarget::DestructuringObject(x) => AssignTarget::DestructuringObject(rewrite_fields(m, x)),
        AssignTarget::DestructuringObjectRest { properties, rest } => AssignTarget::DestructuringObjectRest {
            properties: rewrite_fields(m, properties),
            rest: Box::new(rewrite_target(m, rest)),
        },
    }
}

pub fn rewrite_stmt(m: &LoaderRewriter<'_>, e: &Statement) -> (r: Statement)
    ensures
        r@ == rw_stmt(m@, e@),
    decreases e,
{
    match e {
        Statement::Expr(x) => Statement::Expr(rewrite_expr(m, x)),
        Statement::Let { name, value, kind } => Statement::Let {
            name: name.clone(),
            value: rewrite_expr(m, value),
            kind: *kind,
        },
        Statement::Assign { target, value } => Statement::Assign {
            target: rewrite_target(m, target),
            value: rewrite_expr(m, value),
        },
        Statement::Return(x) => Statement::Return(rewrite_opt_expr(m, x)),
        Statement::Throw(x) => Statement::Throw(rewrite_expr(m, x)),
        Statement::If { condition, then_body, else_body } => Statement::If {
            condition: rewrite_expr(m, condition),
            then_body: rewrite_stmts(m, then_body),
            else_body: rewrite_stmts(m, else_body),
        },
        Statement::While { condition, body } => Statement::While {
            condition: rewrite_expr(m, condition),
            body: rewrite_stmts(m, body),
        },
        Statement::DoWhile { body, condition } => Statement::DoWhile {
            body: rewrite_stmts(m, body),
            condition: rewrite_expr(m, condition),
        },
        Statement::For { init, condition, update, body } => Statement::For {
            init: rewrite_opt_stmt(m, init),
            condition: rewrite_opt_expr(m, condition),
            update: rewrite_opt_stmt(m, update),
            body: rewrite_stmts(m, body),
        },
        Statement::ForIn { variable, object, body } => Statement::ForIn {
            variable: variable.clone(),
            object: rewrite_expr(m, object),
            body: rewrite_stmts(m, body),
        },
        Statement::ForOf { variable, iterable, body } => Statement::ForOf {
            variable: variable.clone(),
            iterable: rewrite_expr(m, iterable),
            body: rewrite_stmts(m, body),
        },
        Statement::Block(x) => Statement::Block(rewrite_stmts(m, x)),
        Statement::TryCatch { try_body, catch_param, catch_body, finally_body } => Statement::TryCatch {
            try_body: rewrite_stmts(m, try_body),
            catch_param: clone_opt_text(catch_param),
            catch_body: rewrite_stmts(m, catch_body),
            finally_body: rewrite_stmts(m, finally_body),
        },
        Statement::Switch { discriminant, cases, default } => Statement::Switch {
            discriminant: rewrite_expr(m, discriminant),
            cases: rewrite_cases(m, cases),
            default: rewrite_opt_stmts(m, default),
        },
        Statement::Class { name, super_class, constructor, methods } => Statement::Class {
            name: name.clone(),
            super_class: rewrite_opt_expr(m, super_class),
            constructor: *constructor,
            methods: clone_methods(methods),
        },
        Statement::Comment(_) => e.clone(),
        Statement::Break(_) => e.clone(),
        Statement::Continue(_) => e.clone(),
    }
}

pub fn rewrite_opt_expr(m: &LoaderRewriter<'_>, o: &Option<Expression>) -> (r: Option<Expression>)
    ensures
        model::opt_expr(r) == rw_opt_expr(m@, model::opt_expr(*o)),
    decreases o,
{
    match o {
        Some(x) => Some(rewrite_expr(m, x)),
        None => None,
    }
}

pub fn rewrite_exprs(m: &LoaderRewriter<'_>, v: &Vec<Expression>) -> (r: Vec<Expression>)
    ensures
        model::exprs(r@) == rw_exprs(m@, model::exprs(v@)),
    decreases v,
{
    let mut out: Vec<Expression> = Vec::new();
    let mut i: usize = 0;
    while i < v.len()
        invariant
            i <= v.len(),
            out.len() == i,
            forall|k: int|
                0 <= k < i ==> (#[trigger] out@[k])@ == rw_expr(m@, v@[k]@),
        decreases v.len() - i,
    {
        out.push(rewrite_expr(m, &v[i]));
        i += 1;
    }
    assert(model::exprs(out@) =~= rw_exprs(m@, model::exprs(v@)));
    out
}

pub fn rewrite_elements(m: &LoaderRewriter<'_>, v: &Vec<Option<Expression>>) -> (r: Vec<Option<Expression>>)
    ensures
        model::opt_exprs(r@) == rw_elements(m@, model::opt_exprs(v@)),
    decreases v,
{
    let mut out: Vec<Option<Expression>> = Vec::new();
    let mut i: usize = 0;
    while i < v.len()
        invariant
            i <= v.len(),
            out.len() == i,
            forall|k: int|
                0 <= k < i ==> model::opt_expr(#[trigger] out@[k]) == rw_opt_expr(m@, model::opt_expr(v@[k])),
        decreases v.len() - i,
    {
        out.push(rewrite_opt_expr(m, &v[i]));
        i += 1;
    }
    assert(model::opt_exprs(out@) =~= rw_elements(m@, model::opt_exprs(v@)));
    out
}

pub fn rewrite_props(m: &LoaderRewriter<'_>, v: &Vec<ObjectProperty>) -> (r: Vec<ObjectProperty>)
    ensures
        model::props(r@) == rw_props(m@, model::props(v@)),
    decreases v,
{
    let mut out: Vec<ObjectProperty> = Vec::new();
    let mut i: usize = 0;
    while i < v.len()
        invariant
            i <= v.len(),
            out.len() == i,
            forall|k: int|
                0 <= k < i ==> (#[trigger] out@[k])@ == rw_prop(m@, v@[k]@),
        decreases v.len() - i,
    {
        out.push(ObjectProperty {
            key: rewrite_key(m, &v[i].key),
            value: rewrite_expr(m, &v[i].value),
        });
        i += 1;
    }
    assert(model::props(out@) =~= rw_props(m@, model::props(v@)));
    out
}

pub fn rewrite_attrs(m: &LoaderRewriter<'_>, v: &Vec<(String, Expression)>) -> (r: Vec<(String, Expression)>)
    ensures
        model::attrs(r@) == rw_attrs(m@, model::attrs(v@)),
    decreases v,
{
    let mut out: Vec<(String, Expression)> = Vec::new();
    let mut i: usize = 0;
    while i < v.len()
        invariant
            i <= v.len(),
            out.len() == i,
            forall|k: int|
                0 <= k < i ==> model::attr(#[trigger] out@[k]) == rw_attr(m@, model::attr(v@[k])),
        decreases v.len() - i,
    {
        out.push((v[i].0.clone(), rewrite_expr(m, &v[i].1)));
        i += 1;
    }
    assert(model::attrs(out@) =~= rw_attrs(m@, model::attrs(v@)));
    out
}

pub fn rewrite_slot(
    m: &LoaderRewriter<'_>,
    o: &Option<(AssignTarget, Option<Expression>)>,
) -> (r: Option<(AssignTarget, Option<Expression>)>)
    ensures
        model::slot(r) == rw_slot(m@, model::slot(*o)),
    decreases o,
{
    match o {
        Some(p) => Some((rewrite_target(m, &p.0), rewrite_opt_expr(m, &p.1))),
        None => None,
    }
}

pub fn rewrite_slots(m: &LoaderRewriter<'_>, v: &Vec<Option<(AssignTarget, Option<Expression>)>>) -> (r: Vec<Option<(AssignTarget, Option<Expression>)>>)
    ensures
        model::slots(r@) == rw_slots(m@, model::slots(v@)),
    decreases v,
{
    let mut out: Vec<Option<(AssignTarget, Option<Expression>)>> = Vec::new();
    let mut i: usize = 0;
    while i < v.len()
        invariant
            i <= v.len(),
            out.len() == i,
            forall|k: int|
                0 <= k < i ==> model::slot(#[trigger] out@[k]) == rw_slot(m@, model::slot(v@[k])),
        decreases v.len() - i,
    {
        out.push(rewrite_slot(m, &v[i]));
        i += 1;
    }
    assert(model::slots(out@) =~= rw_slots(m@, model::slots(v@)));
    out
}

pub fn rewrite_fields(m: &LoaderRewriter<'_>, v: &Vec<(String, AssignTarget, Option<Expression>)>) -> (r: Vec<(String, AssignTarget, Option<Expression>)>)
    ensures
        model::fields(r@) == rw_fields(m@, model::fields(v@)),
    decreases v,
{
    let mut out: Vec<(String, AssignTarget, Option<Expression>)> = Vec::new();
    let mut i: usize = 0;
    while i < v.len()
        invariant
            i <= v.len(),
            out.len() == i,
            forall|k: int|
                0 <= k < i ==> model::field(#[trigger] out@[k]) == rw_field(m@, model::field(v@[k])),
        decreases v.len() - i,
    {
        out.push((v[i].0.clone(), rewrite_target(m, &v[i].1), rewrite_opt_expr(m, &v[i].2)));
        i += 1;
    }
    assert(model::fields(out@) =~= rw_fields(m@, model::fields(v@)));
    out
}

pub fn rewrite_stmts(m: &LoaderRewriter<'_>, v: &Vec<Statement>) -> (r: Vec<Statement>)
    ensures
        model::stmts(r@) == rw_stmts(m@, model::stmts(v@)),
    decreases v,
{
    let mut out: Vec<Statement> = Vec::new();
    let mut i: usize = 0;
    while i < v.len()
        invariant
            i <= v.len(),
            out.len() == i,
            forall|k: int|
                0 <= k < i ==> (#[trigger] out@[k])@ == rw_stmt(m@, v@[k]@),
        decreases v.len() - i,
    {
        out.push(rewrite_stmt(m, &v[i]));
        i += 1;
    }
    assert(model::stmts(out@) =~= rw_stmts(m@, model::stmts(v@)));
    out
}

pub fn rewrite_opt_stmt(m: &LoaderRewriter<'_>, o: &Option<Box<Statement>>) -> (r: Option<Box<Statement>>)
    ensures
        model::opt_stmt(r) == rw_opt_stmt(m@, model::opt_stmt(*o)),
    decreases o,
{
    match o {
        Some(x) => Some(Box::new(rewrite_stmt(m, x))),
        None => None,
    }
}

pub fn rewrite_opt_stmts(m: &LoaderRewriter<'_>, o: &Option<Vec<Statement>>) -> (r: Option<Vec<Statement>>)
    ensures
        model::opt_stmts(r) == rw_opt_stmts(m@, model::opt_stmts(*o)),
    decreases o,
{
    match o {
        Some(x) => Some(rewrite_stmts(m, x)),
        None => None,
    }
}

pub fn rewrite_cases(m: &LoaderRewriter<'_>, v: &Vec<(Expression, Vec<Statement>)>) -> (r: Vec<(Expression, Vec<Statement>)>)
    ensures
        model::case_arms(r@) == rw_cases(m@, model::case_arms(v@)),
    decreases v,
{
    let mut out: Vec<(Expression, Vec<Statement>)> = Vec::new();
    let mut i: usize = 0;
    while i < v.len()
        invariant
            i <= v.len(),
            out.len() == i,
            forall|k: int|
                0 <= k < i ==> model::case_arm(#[trigger] out@[k]) == rw_case(m@, model::case_arm(v@[k])),
        decreases v.len() - i,
    {
        out.push((rewrite_expr(m, &v[i].0), rewrite_stmts(m, &v[i].1)));
        i += 1;
    }
    assert(model::case_arms(out@) =~= rw_cases(m@, model::case_arms(v@)));
    out
}

} // verus!
