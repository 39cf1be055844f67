//! Copies of values of the intermediate representation: the copy has the model of the source.

use super::model;
use super::{
    AssignTarget, ClassMethod, Constant, Expression, Number, ObjectProperty, PropertyKey, Statement,
    Value,
};
use vstd::prelude::*;

verus! {

impl Clone for Constant {
    fn clone(&self) -> (r: Self)
        ensures
            r@ == self@,
        decreases self,
    {
        match self {
            Constant::Undefined => Constant::Undefined,
            Constant::Null => Constant::Null,
            Constant::Bool(x) => Constant::Bool(*x),
            Constant::Integer(x) => Constant::Integer(*x),
            Constant::Number(x) => Constant::Number(x.clone()),
            Constant::String(x) => Constant::String(x.clone()),
            Constant::BigInt(x) => Constant::BigInt(x.clone()),
        }
    }
}

impl Clone for Value {
    fn clone(&self) -> (r: Self)
        ensures
            r@ == self@,
        decreases self,
    {
        match self {
            Value::Register(x) => Value::Register(*x),
            Value::Parameter(x) => Value::Parameter(*x),
            Value::Variable(x) => Value::Variable(x.clone()),
            Value::ClosureVar { depth, slot } => Value::ClosureVar { depth: *depth, slot: *slot },
            Value::Constant(x) => Value::Constant(x.clone()),
            Value::Global => Value::Global,
            Value::This => Value::This,
            Value::NewTarget => Value::NewTarget,
            Value::Super => Value::Super,
        }
    }
}

impl Clone for Expression {
    fn clone(&self) -> (r: Self)
        ensures
            r@ == self@,
        decreases self,
    {
        match self {
            Expression::Value(x) => Expression::Value(x.clone()),
            Expression::Binary { op, left, right } => Expression::Binary {
                op: *op,
                left: Box::new((**left).clone()),
                right: Box::new((**right).clone()),
            },
            Expression::Unary { op, operand } => Expression::Unary {
                op: *op,
                operand: Box::new((**operand).clone()),
            },
            Expression::Conditional { condition, then_expr, else_expr } => Expression::Conditional {
                condition: Box::new((**condition).clone()),
                then_expr: Box::new((**then_expr).clone()),
                else_expr: Box::new((**else_expr).clone()),
            },
            Expression::Member { object, property, optional } => Expression::Member {
                object: Box::new((**object).clone()),
                property: property.clone(),
                optional: *optional,
            },
            Expression::Call { callee, arguments } => Expression::Call {
                callee: Box::new((**callee).clone()),
                arguments: clone_exprs(arguments),
            },
            Expression::New { callee, arguments } => Expression::New {
                callee: Box::new((**callee).clone()),
                arguments: clone_exprs(arguments),
            },
            Expression::Array { elements } => Expression::Array {
                elements: clone_opt_exprs(elements),
            },
            Expression::Object { properties } => Expression::Object {
                properties: clone_props(properties),
            },
            Expression::Function { id, name, is_arrow, is_async, is_generator } => Expression::Function {
                id: *id,
                name: clone_opt_text(name),
                is_arrow: *is_arrow,
                is_async: *is_async,
                is_generator: *is_generator,
            },
            Expression::Assignment { target, value } => Expression::Assignment {
                target: Box::new((**target).clone()),
                value: Box::new((**value).clone()),
            },
            Expression::Spread(x) => Expression::Spread(Box::new((**x).clone())),
            Expression::TemplateLiteral { quasis, expressions } => Expression::TemplateLiteral {
                quasis: clone_texts(quasis),
                expressions: clone_exprs(expressions),
            },
            Expression::RegExp { pattern, flags } => Expression::RegExp {
                pattern: pattern.clone(),
                flags: flags.clone(),
            },
            Expression::Yield { value, delegate } => Expression::Yield {
                value: Box::new((**value).clone()),
                delegate: *delegate,
            },
            Expression::Await(x) => Expression::Await(Box::new((**x).clone())),
            Expression::JSXElement { tag, attributes, children } => Expression::JSXElement {
                tag: tag.clone(),
                attributes: clone_attrs(attributes),
                children: clone_exprs(children),
            },
            Expression::Unknown { opcode, operands } => Expression::Unknown {
                opcode: opcode.clone(),
                operands: clone_texts(operands),
            },
        }
    }
}

impl Clone for PropertyKey {
    fn clone(&self) -> (r: Self)
        ensures
            r@ == self@,
        decreases self,
    {
        match self {
            PropertyKey::Ident(x) => PropertyKey::Ident(x.clone()),
            PropertyKey::String(x) => PropertyKey::String(x.clone()),
            PropertyKey::Index(x) => PropertyKey::Index(*x),
            PropertyKey::Computed(x) => PropertyKey::Computed(Box::new((**x).clone())),
        }
    }
}

impl Clone for AssignTarget {
    fn clone(&self) -> (r: Self)
        ensures
            r@ == self@,
        decreases self,
    {
        match self {
            AssignTarget::Register(x) => AssignTarget::Register(*x),
            AssignTarget::Variable(x) => AssignTarget::Variable(x.clone()),
            AssignTarget::Member { object, property } => AssignTarget::Member {
                object: object.clone(),
                property: property.clone(),
            },
            AssignTarget::Index { object, key } => AssignTarget::Index {
                object: object.clone(),
                key: key.clone(),
            },
            AssignTarget::DestructuringArray(x) => AssignTarget::DestructuringArray(clone_slots(x)),
            AssignTarget::DestructuringArrayRest { elements, rest } => AssignTarget::DestructuringArrayRest {
                elements: clone_slots(elements),
                rest: Box::new((**rest).clone()),
            },
            AssignTarget::DestructuringObject(x) => {
                AssignTarget::DestructuringObject(clone_fields(x))
            },
            AssignTarget::DestructuringObjectRest { properties, rest } => AssignTarget::DestructuringObjectRest {
                properties: clone_fields(properties),
                rest: Box::new((**rest).clone()),
            },
        }
    }
}

impl Clone for Statement {
    fn clone(&self) -> (r: Self)
        ensures
            r@ == self@,
        decreases self,
    {
        match self {
            Statement::Expr(x) => Statement::Expr(x.clone()),
            Statement::Let { name, value, kind } => Statement::Let {
                name: name.clone(),
                value: value.clone(),
                kind: *kind,
            },
            Statement::Assign { target, value } => Statement::Assign {
                target: target.clone(),
                value: value.clone(),
            },
            Statement::Return(x) => Statement::Return(clone_opt_expr(x)),
            Statement::Throw(x) => Statement::Throw(x.clone()),
            Statement::If { condition, then_body, else_body } => Statement::If {
                condition: condition.clone(),
                then_body: clone_stmts(then_body),
                else_body: clone_stmts(else_body),
            },
            Statement::While { condition, body } => Statement::While {
                condition: condition.clone(),
                body: clone_stmts(body),
            },
            Statement::DoWhile { body, condition } => Statement::DoWhile {
                body: clone_stmts(body),
                condition: condition.clone(),
            },
            Statement::For { init, condition, update, body } => Statement::For {
                init: clone_opt_stmt(init),
                condition: clone_opt_expr(condition),
                update: clone_opt_stmt(update),
                body: clone_stmts(body),
            },
            Statement::ForIn { variable, object, body } => Statement::ForIn {
                variable: variable.clone(),
                object: object.clone(),
                body: clone_stmts(body),
            },
            Statement::ForOf { variable, iterable, body } => Statement::ForOf {
                variable: variable.clone(),
                iterable: iterable.clone(),
                body: clone_stmts(body),
            },
            Statement::Block(x) => Statement::Block(clone_stmts(x)),
            Statement::TryCatch { try_body, catch_param, catch_body, finally_body } => Statement::TryCatch {
                try_body: clone_stmts(try_body),
                catch_param: clone_opt_text(catch_param),
                catch_body: clone_stmts(catch_body),
                finally_body: clone_stmts(finally_body),
            },
            Statement::Switch { discriminant, cases, default } => Statement::Switch {
                discriminant: discriminant.clone(),
                cases: clone_cases(cases),
                default: clone_opt_stmts(default),
            },
            Statement::Class { name, super_class, constructor, methods } => Statement::Class {
                name: name.clone(),
                super_class: clone_opt_expr(super_class),
                constructor: *constructor,
                methods: clone_methods(methods),
            },
            Statement::Comment(x) => Statement::Comment(x.clone()),
            Statement::Break(x) => Statement::Break(clone_opt_text(x)),
            Statement::Continue(x) => Statement::Continue(clone_opt_text(x)),
        }
    }
}

impl Clone for Number {
    fn clone(&self) -> (r: Self)
        ensures
            r@ == self@,
        decreases self,
    {
        Number { text: self.text.clone(), integral: self.integral }
    }
}

impl Clone for ObjectProperty {
    fn clone(&self) -> (r: Self)
        ensures
            r@ == self@,
        decreases self,
    {
        ObjectProperty { key: self.key.clone(), value: self.value.clone() }
    }
}

impl Clone for ClassMethod {
    fn clone(&self) -> (r: Self)
        ensures
            r@ == self@,
        decreases self,
    {
        ClassMethod { name: self.name.clone(), function: self.function, is_static: self.is_static }
    }
}

pub fn clone_opt_text(o: &Option<String>) -> (r: Option<String>)
    ensures
        model::opt_text(r) == model::opt_text(*o),
    decreases o,
{
    match o {
        Some(x) => Some(x.clone()),
        None => None,
    }
}

pub fn clone_texts(v: &Vec<String>) -> (r: Vec<String>)
    ensures
        model::texts(r@) == model::texts(v@),
    decreases v,
{
    let mut out: Vec<String> = Vec::new();
    let mut i: usize = 0;
    while i < v.len()
        invariant
            i <= v.len(),
            out.len() == i,
            forall|k: int| 0 <= k < i ==> (#[trigger] out@[k])@ == v@[k]@,
        decreases v.len() - i,
    {
        out.push(v[i].clone());
        i += 1;
    }
    out
}

pub fn clone_opt_expr(o: &Option<Expression>) -> (r: Option<Expression>)
    ensures
        model::opt_expr(r) == model::opt_expr(*o),
    decreases o,
{
    match o {
        Some(x) => Some(x.clone()),
        None => None,
    }
}

pub fn clone_exprs(v: &Vec<Expression>) -> (r: Vec<Expression>)
    ensures
        model::exprs(r@) == model::exprs(v@),
    decreases v,
{
    let mut out: Vec<Expression> = Vec::new();
    let mut i: usize = 0;
    while i < v.len()
        invariant
            i <= v.len(),
            out.len() == i,
            forall|k: int| 0 <= k < i ==> (#[trigger] out@[k])@ == v@[k]@,
        decreases v.len() - i,
    {
        out.push(v[i].clone());
        i += 1;
    }
    out
}

pub fn clone_opt_exprs(v: &Vec<Option<Expression>>) -> (r: Vec<Option<Expression>>)
    ensures
        model::opt_exprs(r@) == model::opt_exprs(v@),
    decreases v,
{
    let mut out: Vec<Option<Expression>> = Vec::new();
    let mut i: usize = 0;
    while i < v.len()
        invariant
            i <= v.len(),
            out.len() == i,
            forall|k: int| 0 <= k < i ==> model::opt_expr(#[trigger] out@[k]) == model::opt_expr(v@[k]),
        decreases v.len() - i,
    {
        out.push(clone_opt_expr(&v[i]));
        i += 1;
    }
    out
}

pub fn clone_props(v: &Vec<ObjectProperty>) -> (r: Vec<ObjectProperty>)
    ensures
        model::props(r@) == model::props(v@),
    decreases v,
{
    let mut out: Vec<ObjectProperty> = Vec::new();
    let mut i: usize = 0;
    while i < v.len()
        invariant
            i <= v.len(),
            out.len() == i,
            forall|k: int| 0 <= k < i ==> (#[trigger] out@[k])@ == v@[k]@,
        decreases v.len() - i,
    {
        out.push(v[i].clone());
        i += 1;
    }
    out
}

pub fn clone_attrs(v: &Vec<(String, Expression)>) -> (r: Vec<(String, Expression)>)
    ensures
        model::attrs(r@) == model::attrs(v@),
    decreases v,
{
    let mut out: Vec<(String, Expression)> = Vec::new();
    let mut i: usize = 0;
    while i < v.len()
        invariant
            i <= v.len(),
            out.len() == i,
            forall|k: int| 0 <= k < i ==> model::attr(#[trigger] out@[k]) == model::attr(v@[k]),
        decreases v.len() - i,
    {
        out.push((v[i].0.clone(), v[i].1.clone()));
        i += 1;
    }
    out
}

pub fn clone_slot(
    o: &Option<(AssignTarget, Option<Expression>)>,
) -> (r: Option<(AssignTarget, Option<Expression>)>)
    ensures
        model::slot(r) == model::slot(*o),
    decreases o,
{
    match o {
        Some(p) => Some((p.0.clone(), clone_opt_expr(&p.1))),
        None => None,
    }
}

pub fn clone_slots(v: &Vec<Option<(AssignTarget, Option<Expression>)>>) -> (r: Vec<Option<(AssignTarget, Option<Expression>)>>)
    ensures
        model::slots(r@) == model::slots(v@),
    decreases v,
{
    let mut out: Vec<Option<(AssignTarget, Option<Expression>)>> = Vec::new();
    let mut i: usize = 0;
    while i < v.len()
        invariant
            i <= v.len(),
            out.len() == i,
            forall|k: int| 0 <= k < i ==> model::slot(#[trigger] out@[k]) == model::slot(v@[k]),
        decreases v.len() - i,
    {
        out.push(clone_slot(&v[i]));
        i += 1;
    }
    out
}

pub fn clone_fields(v: &Vec<(String, AssignTarget, Option<Expression>)>) -> (r: Vec<(String, AssignTarget, Option<Expression>)>)
    ensures
        model::fields(r@) == model::fields(v@),
    decreases v,
{
    let mut out: Vec<(String, AssignTarget, Option<Expression>)> = Vec::new();
    let mut i: usize = 0;
    while i < v.len()
        invariant
            i <= v.len(),
            out.len() == i,
            forall|k: int| 0 <= k < i ==> model::field(#[trigger] out@[k]) == model::field(v@[k]),
        decreases v.len() - i,
    {
        out.push((v[i].0.clone(), v[i].1.clone(), clone_opt_expr(&v[i].2)));
        i += 1;
    }
    out
}

pub fn clone_stmts(v: &Vec<Statement>) -> (r: Vec<Statement>)
    ensures
        model::stmts(r@) == model::stmts(v@),
    decreases v,
{
    let mut out: Vec<Statement> = Vec::new();
    let mut i: usize = 0;
    while i < v.len()
        invariant
            i <= v.len(),
            out.len() == i,
            forall|k: int| 0 <= k < i ==> (#[trigger] out@[k])@ == v@[k]@,
        decreases v.len() - i,
    {
        out.push(v[i].clone());
        i += 1;
    }
    out
}

pub fn clone_opt_stmt(o: &Option<Box<Statement>>) -> (r: Option<Box<Statement>>)
    ensures
        model::opt_stmt(r) == model::opt_stmt(*o),
    decreases o,
{
    match o {
        Some(x) => Some(Box::new((**x).clone())),
        None => None,
    }
}

pub fn clone_opt_stmts(o: &Option<Vec<Statement>>) -> (r: Option<Vec<Statement>>)
    ensures
        model::opt_stmts(r) == model::opt_stmts(*o),
    decreases o,
{
    match o {
        Some(x) => Some(clone_stmts(x)),
        None => None,
    }
}

pub fn clone_cases(v: &Vec<(Expression, Vec<Statement>)>) -> (r: Vec<(Expression, Vec<Statement>)>)
    ensures
        model::case_arms(r@) == model::case_arms(v@),
    decreases v,
{
    let mut out: Vec<(Expression, Vec<Statement>)> = Vec::new();
    let mut i: usize = 0;
    while i < v.len()
        invariant
            i <= v.len(),
            out.len() == i,
            forall|k: int| 0 <= k < i ==> model::case_arm(#[trigger] out@[k]) == model::case_arm(v@[k]),
        decreases v.len() - i,
    {
        out.push((v[i].0.clone(), clone_stmts(&v[i].1)));
        i += 1;
    }
    out
}

pub fn clone_methods(v: &Vec<ClassMethod>) -> (r: Vec<ClassMethod>)
    ensures
        model::class_methods(r@) == model::class_methods(v@),
    decreases v,
{
    let mut out: Vec<ClassMethod> = Vec::new();
    let mut i: usize = 0;
    while i < v.len()
        invariant
            i <= v.len(),
            out.len() == i,
            forall|k: int| 0 <= k < i ==> (#[trigger] out@[k])@ == v@[k]@,
        decreases v.len() - i,
    {
        out.push(v[i].clone());
        i += 1;
    }
    out
}

} // verus!
