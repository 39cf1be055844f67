//! Structural comparison of values of the intermediate representation.

use super::model;
use super::{
    AssignTarget, ClassMethod, Constant, Expression, FunctionId, Number, ObjectProperty, PropertyKey,
    Statement, Value,
};
use vstd::prelude::*;

verus! {

impl Constant {
    /// Structural equality.
    pub fn same(&self, other: &Constant) -> (b: bool)
        ensures
            b == (self@ == other@),
        decreases self,
    {
        match (self, other) {
            (Constant::Undefined, Constant::Undefined) => true,
            (Constant::Null, Constant::Null) => true,
            (Constant::Bool(x), Constant::Bool(x2)) => *x == *x2,
            (Constant::Integer(x), Constant::Integer(x2)) => *x == *x2,
            (Constant::Number(x), Constant::Number(x2)) => x.same(x2),
            (Constant::String(x), Constant::String(x2)) => *x == *x2,
            (Constant::BigInt(x), Constant::BigInt(x2)) => *x == *x2,
            _ => false,
        }
    }
}

impl Value {
    /// Structural equality.
    pub fn same(&self, other: &Value) -> (b: bool)
        ensures
            b == (self@ == other@),
        decreases self,
    {
        match (self, other) {
            (Value::Register(x), Value::Register(x2)) => *x == *x2,
            (Value::Parameter(x), Value::Parameter(x2)) => *x == *x2,
            (Value::Variable(x), Value::Variable(x2)) => *x == *x2,
            (
                Value::ClosureVar { depth, slot },
                Value::ClosureVar { depth: depth2, slot: slot2 },
            ) => *depth == *depth2 && *slot == *slot2,
            (Value::Constant(x), Value::Constant(x2)) => x.same(x2),
            (Value::Global, Value::Global) => true,
            (Value::This, Value::This) => true,
            (Value::NewTarget, Value::NewTarget) => true,
            (Value::Super, Value::Super) => true,
            _ => false,
        }
    }
}

impl Expression {
    /// Structural equality.
    pub fn same(&self, other: &Expression) -> (b: bool)
        ensures
            b == (self@ == other@),
        decreases self,
    {
        match (self, other) {
            (Expression::Value(x), Expression::Value(x2)) => x.same(x2),
            (
                Expression::Binary { op, left, right },
                Expression::Binary { op: op2, left: left2, right: right2 },
            ) => *op == *op2 && left.same(left2) && right.same(right2),
            (
                Expression::Unary { op, operand },
                Expression::Unary { op: op2, operand: operand2 },
            ) => *op == *op2 && operand.same(operand2),
            (
                Expression::Conditional { condition, then_expr, else_expr },
                Expression::Conditional {
                    condition: condition2,
                    then_expr: then_expr2,
                    else_expr: else_expr2,
                },
            ) => {
                condition.same(condition2)
                    && then_expr.same(then_expr2)
                    && else_expr.same(else_expr2)
            },
            (
                Expression::Member { object, property, optional },
                Expression::Member { object: object2, property: property2, optional: optional2 },
            ) => object.same(object2) && property.same(property2) && *optional == *optional2,
            (
                Expression::Call { callee, arguments },
                Expression::Call { callee: callee2, arguments: arguments2 },
            ) => callee.same(callee2) && same_exprs(arguments, arguments2),
            (
                Expression::New { callee, arguments },
                Expression::New { callee: callee2, arguments: arguments2 },
            ) => callee.same(callee2) && same_exprs(arguments, arguments2),
            (
                Expression::Array { elements },
                Expression::Array { elements: elements2 },
            ) => same_opt_exprs(elements, elements2),
            (
                Expression::Object { properties },
                Expression::Object { properties: properties2 },
            ) => same_props(properties, properties2),
            (
                Expression::Function { id, name, is_arrow, is_async, is_generator },
                Expression::Function {
                    id: id2,
                    name: name2,
                    is_arrow: is_arrow2,
                    is_async: is_async2,
                    is_generator: is_generator2,
                },
            ) => {
                *id == *id2
                    && same_opt_text(name, name2)
                    && *is_arrow == *is_arrow2
                    && *is_async == *is_async2
                    && *is_generator == *is_generator2
            },
            (
                Expression::Assignment { target, value },
                Expression::Assignment { target: target2, value: value2 },
            ) => target.same(target2) && value.same(value2),
            (Expression::Spread(x), Expression::Spread(x2)) => x.same(x2),
            (
                Expression::TemplateLiteral { quasis, expressions },
                Expression::TemplateLiteral { quasis: quasis2, expressions: expressions2 },
            ) => same_texts(quasis, quasis2) && same_exprs(expressions, expressions2),
            (
                Expression::RegExp { pattern, flags },
                Expression::RegExp { pattern: pattern2, flags: flags2 },
            ) => *pattern == *pattern2 && *flags == *flags2,
            (
                Expression::Yield { value, delegate },
                Expression::Yield { value: value2, delegate: delegate2 },
            ) => value.same(value2) && *delegate == *delegate2,
            (Expression::Await(x), Expression::Await(x2)) => x.same(x2),
            (
                Expression::JSXElement { tag, attributes, children },
                Expression::JSXElement { tag: tag2, attributes: attributes2, children: children2 },
            ) => {
                *tag == *tag2
                    && same_attrs(attributes, attributes2)
                    && same_exprs(children, children2)
            },
            (
                Expression::Unknown { opcode, operands },
                Expression::Unknown { opcode: opcode2, operands: operands2 },
            ) => *opcode == *opcode2 && same_texts(operands, operands2),
            _ => false,
        }
    }
}

impl PropertyKey {
    /// Structural equality.
    pub fn same(&self, other: &PropertyKey) -> (b: bool)
        ensures
            b == (self@ == other@),
        decreases self,
    {
        match (self, other) {
            (PropertyKey::Ident(x), PropertyKey::Ident(x2)) => *x == *x2,
            (PropertyKey::String(x), PropertyKey::String(x2)) => *x == *x2,
            (PropertyKey::Index(x), PropertyKey::Index(x2)) => *x == *x2,
            (PropertyKey::Computed(x), PropertyKey::Computed(x2)) => x.same(x2),
            _ => false,
        }
    }
}

impl AssignTarget {
    /// Structural equality.
    pub fn same(&self, other: &AssignTarget) -> (b: bool)
        ensures
            b == (self@ == other@),
        decreases self,
    {
        match (self, other) {
            (AssignTarget::Register(x), AssignTarget::Register(x2)) => *x == *x2,
            (AssignTarget::Variable(x), AssignTarget::Variable(x2)) => *x == *x2,
            (
                AssignTarget::Member { object, property },
                AssignTarget::Member { object: object2, property: property2 },
            ) => object.same(object2) && *property == *property2,
            (
                AssignTarget::Index { object, key },
                AssignTarget::Index { object: object2, key: key2 },
            ) => object.same(object2) && key.same(key2),
            (
                AssignTarget::DestructuringArray(x),
                AssignTarget::DestructuringArray(x2),
            ) => same_slots(x, x2),
            (
                AssignTarget::DestructuringArrayRest { elements, rest },
                AssignTarget::DestructuringArrayRest { elements: elements2, rest: rest2 },
            ) => same_slots(elements, elements2) && rest.same(rest2),
            (
                AssignTarget::DestructuringObject(x),
                AssignTarget::DestructuringObject(x2),
            ) => same_fields(x, x2),
            (
                AssignTarget::DestructuringObjectRest { properties, rest },
                AssignTarget::DestructuringObjectRest { properties: properties2, rest: rest2 },
            ) => same_fields(properties, properties2) && rest.same(rest2),
            _ => false,
        }
    }
}

impl Statement {
    /// Structural equality.
    pub fn same(&self, other: &Statement) -> (b: bool)
        ensures
            b == (self@ == other@),
        decreases self,
    {
        match (self, other) {
            (Statement::Expr(x), Statement::Expr(x2)) => x.same(x2),
            (
                Statement::Let { name, value, kind },
                Statement::Let { name: name2, value: value2, kind: kind2 },
            ) => *name == *name2 && value.same(value2) && *kind == *kind2,
            (
                Statement::Assign { target, value },
                Statement::Assign { target: target2, value: value2 },
            ) => target.same(target2) && value.same(value2),
            (Statement::Return(x), Statement::Return(x2)) => same_opt_expr(x, x2),
            (Statement::Throw(x), Statement::Throw(x2)) => x.same(x2),
            (
                Statement::If { condition, then_body, else_body },
                Statement::If {
                    condition: condition2,
                    then_body: then_body2,
                    else_body: else_body2,
                },
            ) => {
                condition.same(condition2)
                    && same_stmts(then_body, then_body2)
                    && same_stmts(else_body, else_body2)
            },
            (
                Statement::While { condition, body },
                Statement::While { condition: condition2, body: body2 },
            ) => condition.same(condition2) && same_stmts(body, body2),
            (
                Statement::DoWhile { body, condition },
                Statement::DoWhile { body: body2, condition: condition2 },
            ) => same_stmts(body, body2) && condition.same(condition2),
            (
                Statement::For { init, condition, update, body },
                Statement::For {
                    init: init2,
                    condition: condition2,
                    update: update2,
                    body: body2,
                },
            ) => {
                same_opt_stmt(init, init2)
                    && same_opt_expr(condition, condition2)
                    && same_opt_stmt(update, update2)
                    && same_stmts(body, body2)
            },
            (
                Statement::ForIn { variable, object, body },
                Statement::ForIn { variable: variable2, object: object2, body: body2 },
            ) => *variable == *variable2 && object.same(object2) && same_stmts(body, body2),
            (
                Statement::ForOf { variable, iterable, body },
                Statement::ForOf { variable: variable2, iterable: iterable2, body: body2 },
            ) => *variable == *variable2 && iterable.same(iterable2) && same_stmts(body, body2),
            (Statement::Block(x), Statement::Block(x2)) => same_stmts(x, x2),
            (
                Statement::TryCatch { try_body, catch_param, catch_body, finally_body },
                Statement::TryCatch {
                    try_body: try_body2,
                    catch_param: catch_param2,
                    catch_body: catch_body2,
                    finally_body: finally_body2,
                },
            ) => {
                same_stmts(try_body, try_body2)
                    && same_opt_text(catch_param, catch_param2)
                    && same_stmts(catch_body, catch_body2)
                    && same_stmts(finally_body, finally_body2)
            },
            (
                Statement::Switch { discriminant, cases, default },
                Statement::Switch {
                    discriminant: discriminant2,
                    cases: cases2,
                    default: default2,
                },
            ) => {
                discriminant.same(discriminant2)
                    && same_cases(cases, cases2)
                    && same_opt_stmts(default, default2)
            },
            (
                Statement::Class { name, super_class, constructor, methods },
                Statement::Class {
                    name: name2,
                    super_class: super_class2,
                    constructor: constructor2,
                    methods: methods2,
                },
            ) => {
                *name == *name2
                    && same_opt_expr(super_class, super_class2)
                    && same_opt_id(constructor, constructor2)
                    && same_methods(methods, methods2)
            },
            (Statement::Comment(x), Statement::Comment(x2)) => *x == *x2,
            (Statement::Break(x), Statement::Break(x2)) => same_opt_text(x, x2),
            (Statement::Continue(x), Statement::Continue(x2)) => same_opt_text(x, x2),
            _ => false,
        }
    }
}

impl Number {
    /// Structural equality.
    pub fn same(&self, other: &Number) -> (b: bool)
        ensures
            b == (self@ == other@),
        decreases self,
    {
        self.text == other.text && same_opt_i64(&self.integral, &other.integral)
    }
}

impl ObjectProperty {
    /// Structural equality.
    pub fn same(&self, other: &ObjectProperty) -> (b: bool)
        ensures
            b == (self@ == other@),
        decreases self,
    {
        self.key.same(&other.key) && self.value.same(&other.value)
    }
}

impl ClassMethod {
    /// Structural equality.
    pub fn same(&self, other: &ClassMethod) -> (b: bool)
        ensures
            b == (self@ == other@),
        decreases self,
    {
        self.name == other.name && self.function == other.function && self.is_static == other.is_static
    }
}

pub fn same_opt_i64(a: &Option<i64>, b: &Option<i64>) -> (r: bool)
    ensures
        r == (*a == *b),
{
    match (a, b) {
        (Some(x), Some(y)) => *x == *y,
        (None, None) => true,
        _ => false,
    }
}

pub fn same_opt_id(a: &Option<FunctionId>, b: &Option<FunctionId>) -> (r: bool)
    ensures
        r == (*a == *b),
{
    match (a, b) {
        (Some(x), Some(y)) => *x == *y,
        (None, None) => true,
        _ => false,
    }
}

pub fn same_opt_text(a: &Option<String>, b: &Option<String>) -> (r: bool)
    ensures
        r == (model::opt_text(*a) == model::opt_text(*b)),
    decreases a,
{
    match (a, b) {
        (Some(x), Some(y)) => *x == *y,
        (None, None) => true,
        _ => false,
    }
}

pub fn same_texts(a: &Vec<String>, b: &Vec<String>) -> (r: bool)
    ensures
        r == (model::texts(a@) == model::texts(b@)),
    decreases a,
{
    if a.len() != b.len() {
        assert(model::texts(a@).len() != model::texts(b@).len());
        return false;
    }
    let mut i: usize = 0;
    while i < a.len()
        invariant
            i <= a.len(),
            a.len() == b.len(),
            forall|k: int| 0 <= k < i ==> model::texts(a@)[k] == model::texts(b@)[k],
        decreases a.len() - i,
    {
        if !(a[i] == b[i]) {
            assert(model::texts(a@)[i as int] != model::texts(b@)[i as int]);
            return false;
        }
        i += 1;
    }
    assert(model::texts(a@) =~= model::texts(b@));
    true
}

pub fn same_opt_expr(a: &Option<Expression>, b: &Option<Expression>) -> (r: bool)
    ensures
        r == (model::opt_expr(*a) == model::opt_expr(*b)),
    decreases a,
{
    match (a, b) {
        (Some(x), Some(y)) => x.same(y),
        (None, None) => true,
        _ => false,
    }
}

pub fn same_exprs(a: &Vec<Expression>, b: &Vec<Expression>) -> (r: bool)
    ensures
        r == (model::exprs(a@) == model::exprs(b@)),
    decreases a,
{
    if a.len() != b.len() {
        assert(model::exprs(a@).len() != model::exprs(b@).len());
        return false;
    }
    let mut i: usize = 0;
    while i < a.len()
        invariant
            i <= a.len(),
            a.len() == b.len(),
            forall|k: int| 0 <= k < i ==> model::exprs(a@)[k] == model::exprs(b@)[k],
        decreases a.len() - i,
    {
        if !(a[i].same(&b[i])) {
            assert(model::exprs(a@)[i as int] != model::exprs(b@)[i as int]);
            return false;
        }
        i += 1;
    }
    assert(model::exprs(a@) =~= model::exprs(b@));
    true
}

pub fn same_opt_exprs(a: &Vec<Option<Expression>>, b: &Vec<Option<Expression>>) -> (r: bool)
    ensures
        r == (model::opt_exprs(a@) == model::opt_exprs(b@)),
    decreases a,
{
    if a.len() != b.len() {
        assert(model::opt_exprs(a@).len() != model::opt_exprs(b@).len());
        return false;
    }
    let mut i: usize = 0;
    while i < a.len()
        invariant
            i <= a.len(),
            a.len() == b.len(),
            forall|k: int| 0 <= k < i ==> model::opt_exprs(a@)[k] == model::opt_exprs(b@)[k],
        decreases a.len() - i,
    {
        if !(same_opt_expr(&a[i], &b[i])) {
            assert(model::opt_exprs(a@)[i as int] != model::opt_exprs(b@)[i as int]);
            return false;
        }
        i += 1;
    }
    assert(model::opt_exprs(a@) =~= model::opt_exprs(b@));
    true
}

pub fn same_props(a: &Vec<ObjectProperty>, b: &Vec<ObjectProperty>) -> (r: bool)
    ensures
        r == (model::props(a@) == model::props(b@)),
    decreases a,
{
    if a.len() != b.len() {
        assert(model::props(a@).len() != model::props(b@).len());
        return false;
    }
    let mut i: usize = 0;
    while i < a.len()
        invariant
            i <= a.len(),
            a.len() == b.len(),
            forall|k: int| 0 <= k < i ==> model::props(a@)[k] == model::props(b@)[k],
        decreases a.len() - i,
    {
        if !(a[i].same(&b[i])) {
            assert(model::props(a@)[i as int] != model::props(b@)[i as int]);
            return false;
        }
        i += 1;
    }
    assert(model::props(a@) =~= model::props(b@));
    true
}

pub fn same_attrs(a: &Vec<(String, Expression)>, b: &Vec<(String, Expression)>) -> (r: bool)
    ensures
        r == (model::attrs(a@) == model::attrs(b@)),
    decreases a,
{
    if a.len() != b.len() {
        assert(model::attrs(a@).len() != model::attrs(b@).len());
        return false;
    }
    let mut i: usize = 0;
    while i < a.len()
        invariant
            i <= a.len(),
            a.len() == b.len(),
            forall|k: int| 0 <= k < i ==> model::attrs(a@)[k] == model::attrs(b@)[k],
        decreases a.len() - i,
    {
        if !(a[i].0 == b[i].0 && a[i].1.same(&b[i].1)) {
            assert(model::attrs(a@)[i as int] != model::attrs(b@)[i as int]);
            return false;
        }
        i += 1;
    }
    assert(model::attrs(a@) =~= model::attrs(b@));
    true
}

pub fn same_slot(a: &Option<(AssignTarget, Option<Expression>)>, b: &Option<(AssignTarget, Option<Expression>)>) -> (r: bool)
    ensures
        r == (model::slot(*a) == model::slot(*b)),
    decreases a,
{
    match (a, b) {
        (Some(x), Some(y)) => x.0.same(&y.0) && same_opt_expr(&x.1, &y.1),
        (None, None) => true,
        _ => false,
    }
}

pub fn same_slots(a: &Vec<Option<(AssignTarget, Option<Expression>)>>, b: &Vec<Option<(AssignTarget, Option<Expression>)>>) -> (r: bool)
    ensures
        r == (model::slots(a@) == model::slots(b@)),
    decreases a,
{
    if a.len() != b.len() {
        assert(model::slots(a@).len() != model::slots(b@).len());
        return false;
    }
    let mut i: usize = 0;
    while i < a.len()
        invariant
            i <= a.len(),
            a.len() == b.len(),
            forall|k: int| 0 <= k < i ==> model::slots(a@)[k] == model::slots(b@)[k],
        decreases a.len() - i,
    {
        if !(same_slot(&a[i], &b[i])) {
            assert(model::slots(a@)[i as int] != model::slots(b@)[i as int]);
            return false;
        }
        i += 1;
    }
    assert(model::slots(a@) =~= model::slots(b@));
    true
}

pub fn same_fields(a: &Vec<(String, AssignTarget, Option<Expression>)>, b: &Vec<(String, AssignTarget, Option<Expression>)>) -> (r: bool)
    ensures
        r == (model::fields(a@) == model::fields(b@)),
    decreases a,
{
    if a.len() != b.len() {
        assert(model::fields(a@).len() != model::fields(b@).len());
        return false;
    }
    let mut i: usize = 0;
    while i < a.len()
        invariant
            i <= a.len(),
            a.len() == b.len(),
            forall|k: int| 0 <= k < i ==> model::fields(a@)[k] == model::fields(b@)[k],
        decreases a.len() - i,
    {
        if !(a[i].0 == b[i].0 && a[i].1.same(&b[i].1) && same_opt_expr(&a[i].2, &b[i].2)) {
            assert(model::fields(a@)[i as int] != model::fields(b@)[i as int]);
            return false;
        }
        i += 1;
    }
    assert(model::fields(a@) =~= model::fields(b@));
    true
}

pub fn same_stmts(a: &Vec<Statement>, b: &Vec<Statement>) -> (r: bool)
    ensures
        r == (model::stmts(a@) == model::stmts(b@)),
    decreases a,
{
    if a.len() != b.len() {
        assert(model::stmts(a@).len() != model::stmts(b@).len());
        return false;
    }
    let mut i: usize = 0;
    while i < a.len()
        invariant
            i <= a.len(),
            a.len() == b.len(),
            forall|k: int| 0 <= k < i ==> model::stmts(a@)[k] == model::stmts(b@)[k],
        decreases a.len() - i,
    {
        if !(a[i].same(&b[i])) {
            assert(model::stmts(a@)[i as int] != model::stmts(b@)[i as int]);
            return false;
        }
        i += 1;
    }
    assert(model::stmts(a@) =~= model::stmts(b@));
    true
}

pub fn same_opt_stmt(a: &Option<Box<Statement>>, b: &Option<Box<Statement>>) -> (r: bool)
    ensures
        r == (model::opt_stmt(*a) == model::opt_stmt(*b)),
    decreases a,
{
    match (a, b) {
        (Some(x), Some(y)) => x.same(y),
        (None, None) => true,
        _ => false,
    }
}

pub fn same_opt_stmts(a: &Option<Vec<Statement>>, b: &Option<Vec<Statement>>) -> (r: bool)
    ensures
        r == (model::opt_stmts(*a) == model::opt_stmts(*b)),
    decreases a,
{
    match (a, b) {
        (Some(x), Some(y)) => same_stmts(x, y),
        (None, None) => true,
        _ => false,
    }
}

pub fn same_cases(a: &Vec<(Expression, Vec<Statement>)>, b: &Vec<(Expression, Vec<Statement>)>) -> (r: bool)
    ensures
        r == (model::case_arms(a@) == model::case_arms(b@)),
    decreases a,
{
    if a.len() != b.len() {
        assert(model::case_arms(a@).len() != model::case_arms(b@).len());
        return false;
    }
    let mut i: usize = 0;
    while i < a.len()
        invariant
            i <= a.len(),
            a.len() == b.len(),
            forall|k: int| 0 <= k < i ==> model::case_arms(a@)[k] == model::case_arms(b@)[k],
        decreases a.len() - i,
    {
        if !(a[i].0.same(&b[i].0) && same_stmts(&a[i].1, &b[i].1)) {
            assert(model::case_arms(a@)[i as int] != model::case_arms(b@)[i as int]);
            return false;
        }
        i += 1;
    }
    assert(model::case_arms(a@) =~= model::case_arms(b@));
    true
}

pub fn same_methods(a: &Vec<ClassMethod>, b: &Vec<ClassMethod>) -> (r: bool)
    ensures
        r == (model::class_methods(a@) == model::class_methods(b@)),
    decreases a,
{
    if a.len() != b.len() {
        assert(model::class_methods(a@).len() != model::class_methods(b@).len());
        return false;
    }
    let mut i: usize = 0;
    while i < a.len()
        invariant
            i <= a.len(),
            a.len() == b.len(),
            forall|k: int| 0 <= k < i ==> model::class_methods(a@)[k] == model::class_methods(b@)[k],
        decreases a.len() - i,
    {
        if !(a[i].same(&b[i])) {
            assert(model::class_methods(a@)[i as int] != model::class_methods(b@)[i as int]);
            return false;
        }
        i += 1;
    }
    assert(model::class_methods(a@) =~= model::class_methods(b@));
    true
}

} // verus!
