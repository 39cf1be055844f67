//! Lowers calls of an element factory to JSX elements.

use crate::ir::cloning::{clone_methods, clone_opt_text, clone_texts};
use crate::ir::model;
use crate::ir::model::{Const, Expr, Key, Prop, Stmt, Target, Val};
use crate::ir::{
    AssignTarget, Constant, Expression, ObjectProperty, PropertyKey, Statement, Value,
};
use crate::text;
use vstd::prelude::*;

verus! {

/// The name by which a factory is called, without a leading underscore.
pub open spec fn factory(callee: Expr) -> Option<Seq<char>> {
    match callee {
        Expr::Member { property: Key::Ident(p), .. } => Some(without_underscore(p)),
        Expr::Member { property: Key::String(p), .. } => Some(without_underscore(p)),
        Expr::Value(Val::Variable(n)) => Some(without_underscore(n)),
        _ => None,
    }
}

pub open spec fn without_underscore(n: Seq<char>) -> Seq<char> {
    match text::after_prefix(n, "_"@) {
        Some(rest) => rest,
        None => n,
    }
}

/// The factories of the automatic runtime: children are a property, and the key is an argument.
pub open spec fn modern_name(n: Seq<char>) -> bool {
    ||| n == "jsx"@
    ||| n == "jsxs"@
    ||| n == "jsxDEV"@
    ||| n == "jsxsDEV"@
    ||| n == "jsxDev"@
    ||| n == "jsxsDev"@
}

pub open spec fn modern(callee: Expr) -> bool {
    factory(callee) matches Some(n) && modern_name(n)
}

/// Whether a callee is an element factory.
pub open spec fn jsx_callee(callee: Expr) -> bool {
    factory(callee) matches Some(n) && (n == "createElement"@ || modern_name(n))
}

/// The tag that the first argument of a factory is: a tag name, a component or a member of a
/// namespace. Other components have no JSX form.
pub open spec fn tag(e: Expr) -> Option<Seq<char>> {
    match e {
        Expr::Value(Val::Constant(Const::String(s))) => Some(s),
        Expr::Value(Val::Variable(v)) => Some(v),
        Expr::Member { object, property, .. } => match (*object, property) {
            (Expr::Value(Val::Variable(o)), Key::Ident(p)) => Some(o + "."@ + p),
            _ => None,
        },
        _ => None,
    }
}

pub open spec fn fragment(n: Seq<char>) -> bool {
    n == "Fragment"@ || n == "_Fragment"@ || text::has_suffix(n, ".Fragment"@)
}

/// The tag of an element; a fragment has an empty one.
pub open spec fn element_tag(n: Seq<char>) -> Seq<char> {
    if fragment(n) {
        Seq::empty()
    } else {
        n
    }
}

pub open spec fn nothing(e: Expr) -> bool {
    e == Expr::Value(Val::Constant(Const::Null)) || e == Expr::Value(
        Val::Constant(Const::Undefined),
    )
}

pub open spec fn key_name(k: Key) -> Option<Seq<char>> {
    match k {
        Key::Ident(n) => Some(n),
        Key::String(n) => Some(n),
        _ => None,
    }
}

/// The attributes among properties: all with a name, but for `children` in a modern call.
pub open spec fn prop_attrs(s: Seq<Prop>, m: bool) -> Seq<(Seq<char>, Expr)>
    decreases s.len(),
{
    if s.len() == 0 {
        Seq::empty()
    } else {
        let before = prop_attrs(s.drop_last(), m);
        match key_name(s.last().key) {
            Some(n) => if m && n == "children"@ {
                before
            } else {
                before.push((n, s.last().value))
            },
            None => before,
        }
    }
}

/// The elements of an array literal that are there.
pub open spec fn present(s: Seq<Option<Expr>>) -> Seq<Expr>
    decreases s.len(),
{
    if s.len() == 0 {
        Seq::empty()
    } else {
        match s.last() {
            Some(e) => present(s.drop_last()).push(e),
            None => present(s.drop_last()),
        }
    }
}

/// The children that a `children` property gives.
pub open spec fn children_of(e: Expr) -> Seq<Expr> {
    match e {
        Expr::Array { elements } => present(elements),
        _ => seq![e],
    }
}

/// The children among the properties of a modern call.
pub open spec fn prop_children(s: Seq<Prop>) -> Seq<Expr>
    decreases s.len(),
{
    if s.len() == 0 {
        Seq::empty()
    } else {
        let before = prop_children(s.drop_last());
        if key_name(s.last().key) == Some("children"@) {
            before + children_of(s.last().value)
        } else {
            before
        }
    }
}

/// The `key` attribute that the third argument of a modern call gives.
pub open spec fn key_attr(args: Seq<Expr>) -> Seq<(Seq<char>, Expr)> {
    if args.len() >= 3 && !nothing(args[2]) {
        seq![("key"@, args[2])]
    } else {
        Seq::empty()
    }
}

/// The attributes that the second argument gives.
pub open spec fn arg_attrs(args: Seq<Expr>, m: bool) -> Seq<(Seq<char>, Expr)> {
    if args.len() < 2 || nothing(args[1]) {
        Seq::empty()
    } else {
        match args[1] {
            Expr::Object { properties } => prop_attrs(properties, m),
            e => seq![
                (
                    "..."@,
                    if m || e is Spread {
                        e
                    } else {
                        Expr::Spread(Box::new(e))
                    },
                ),
            ],
        }
    }
}

/// The children of an element.
pub open spec fn arg_children(args: Seq<Expr>, m: bool) -> Seq<Expr> {
    if m {
        if args.len() < 2 {
            Seq::empty()
        } else {
            match args[1] {
                Expr::Object { properties } => prop_children(properties),
                _ => Seq::empty(),
            }
        }
    } else if args.len() > 2 {
        args.subrange(2, args.len() as int)
    } else {
        Seq::empty()
    }
}

/// The element that a factory call makes, where its tag has a JSX form.
pub open spec fn element(callee: Expr, args: Seq<Expr>) -> Option<Expr> {
    match tag(args[0]) {
        Some(n) => {
            let m = modern(callee);
            Some(
                Expr::JSXElement {
                    tag: element_tag(n),
                    attributes: (if m {
                        key_attr(args)
                    } else {
                        Seq::empty()
                    }) + arg_attrs(args, m),
                    children: arg_children(args, m),
                },
            )
        },
        None => None,
    }
}

/// A call, as an element where it is a factory call that has a JSX form.
pub open spec fn lowered(callee: Expr, args: Seq<Expr>) -> Expr {
    let call = Expr::Call { callee: Box::new(callee), arguments: args };
    if jsx_callee(callee) && args.len() > 0 {
        match element(callee, args) {
            Some(x) => x,
            None => call,
        }
    } else {
        call
    }
}

/// The expression with its factory calls lowered, inner ones first.
pub open spec fn low_expr(e: Expr) -> Expr
    decreases e,
{
    match e {
        Expr::Value(_) => e,
        Expr::Binary { op, left, right } => Expr::Binary {
            op,
            left: Box::new(low_expr(*left)),
            right: Box::new(low_expr(*right)),
        },
        Expr::Unary { op, operand } => Expr::Unary {
            op,
            operand: Box::new(low_expr(*operand)),
        },
        Expr::Conditional { condition, then_expr, else_expr } => Expr::Conditional {
            condition: Box::new(low_expr(*condition)),
            then_expr: Box::new(low_expr(*then_expr)),
            else_expr: Box::new(low_expr(*else_expr)),
        },
        Expr::Member { object, property, optional } => Expr::Member {
            object: Box::new(low_expr(*object)),
            property: low_key(property),
            optional,
        },
        Expr::Call { callee, arguments } => lowered(low_expr(*callee), low_exprs(arguments)),
        Expr::New { callee, arguments } => Expr::New {
            callee: Box::new(low_expr(*callee)),
            arguments: low_exprs(arguments),
        },
        Expr::Array { elements } => Expr::Array {
            elements: low_elements(elements),
        },
        Expr::Object { properties } => Expr::Object {
            properties: low_props(properties),
        },
        Expr::Function { .. } => e,
        Expr::Assignment { target, value } => Expr::Assignment {
            target: Box::new(low_expr(*target)),
            value: Box::new(low_expr(*value)),
        },
        Expr::Spread(x) => Expr::Spread(Box::new(low_expr(*x))),
        Expr::TemplateLiteral { quasis, expressions } => Expr::TemplateLiteral {
            quasis,
            expressions: low_exprs(expressions),
        },
        Expr::RegExp { .. } => e,
        Expr::Yield { value, delegate } => Expr::Yield {
            value: Box::new(low_expr(*value)),
            delegate,
        },
        Expr::Await(x) => Expr::Await(Box::new(low_expr(*x))),
        Expr::JSXElement { tag, attributes, children } => Expr::JSXElement {
            tag,
            attributes: low_attrs(attributes),
            children: low_exprs(children),
        },
        Expr::Unknown { .. } => e,
    }
}

pub open spec fn low_key(e: Key) -> Key
    decreases e,
{
    match e {
        Key::Ident(_) => e,
        Key::String(_) => e,
        Key::Index(_) => e,
        Key::Computed(x) => Key::Computed(Box::new(low_expr(*x))),
    }
}

pub open spec fn low_target(e: Target) -> Target
    decreases e,
{
    match e {
        Target::Register(_) => e,
        Target::Variable(_) => e,
        Target::Member { object, property } => Target::Member {
            object: low_expr(object),
            property,
        },
        Target::Index { object, key } => Target::Index {
            object: low_expr(object),
            key: low_expr(key),
        },
        Target::DestructuringArray(x) => Target::DestructuringArray(low_slots(x)),
        Target::DestructuringArrayRest { elements, rest } => Target::DestructuringArrayRest {
            elements: low_slots(elements),
            rest: Box::new(low_target(*rest)),
        },
        Target::DestructuringObject(x) => Target::DestructuringObject(low_fields(x)),
        Target::DestructuringObjectRest { properties, rest } => Target::DestructuringObjectRest {
            properties: low_fields(properties),
            rest: Box::new(low_target(*rest)),
        },
    }
}

pub open spec fn low_stmt(e: Stmt) -> Stmt
    decreases e,
{
    match e {
        Stmt::Expr(x) => Stmt::Expr(low_expr(x)),
        Stmt::Let { name, value, kind } => Stmt::Let {
            name,
            value: low_expr(value),
            kind,
        },
        Stmt::Assign { target, value } => Stmt::Assign {
            target: low_target(target),
            value: low_expr(value),
        },
        Stmt::Return(x) => Stmt::Return(low_opt_expr(x)),
        Stmt::Throw(x) => Stmt::Throw(low_expr(x)),
        Stmt::If { condition, then_body, else_body } => Stmt::If {
            condition: low_expr(condition),
            then_body: low_stmts(then_body),
            else_body: low_stmts(else_body),
        },
        Stmt::While { condition, body } => Stmt::While {
            condition: low_expr(condition),
            body: low_stmts(body),
        },
        Stmt::DoWhile { body, condition } => Stmt::DoWhile {
            body: low_stmts(body),
            condition: low_expr(condition),
        },
        Stmt::For { init, condition, update, body } => Stmt::For {
            init: low_opt_stmt(init),
            condition: low_opt_expr(condition),
            update: low_opt_stmt(update),
            body: low_stmts(body),
        },
        Stmt::ForIn { variable, object, body } => Stmt::ForIn {
            variable,
            object: low_expr(object),
            body: low_stmts(body),
        },
        Stmt::ForOf { variable, iterable, body } => Stmt::ForOf {
            variable,
            iterable: low_expr(iterable),
            body: low_stmts(body),
        },
        Stmt::Block(x) => Stmt::Block(low_stmts(x)),
        Stmt::TryCatch { try_body, catch_param, catch_body, finally_body } => Stmt::TryCatch {
            try_body: low_stmts(try_body),
            catch_param,
            catch_body: low_stmts(catch_body),
            finally_body: low_stmts(finally_body),
        },
        Stmt::Switch { discriminant, cases, default } => Stmt::Switch {
            discriminant: low_expr(discriminant),
            cases: low_cases(cases),
            default: low_opt_stmts(default),
        },
        Stmt::Class { name, super_class, constructor, methods } => Stmt::Class {
            name,
            super_class: low_opt_expr(super_class),
            constructor,
            methods,
        },
        Stmt::Comment(_) => e,
        Stmt::Break(_) => e,
        Stmt::Continue(_) => e,
    }
}

pub open spec fn low_opt_expr(o: Option<Expr>) -> Option<Expr>
    decreases o,
{
    match o {
        Some(x) => Some(low_expr(x)),
        None => None,
    }
}

pub open spec fn low_exprs(s: Seq<Expr>) -> Seq<Expr>
    decreases s,
{
    Seq::new(
        s.len(),
        |i: int|
            if 0 <= i < s.len() {
                low_expr(s[i])
            } else {
                arbitrary()
            },
    )
}

pub open spec fn low_elements(s: Seq<Option<Expr>>) -> Seq<Option<Expr>>
    decreases s,
{
    Seq::new(
        s.len(),
        |i: int|
            if 0 <= i < s.len() {
                low_opt_expr(s[i])
            } else {
                arbitrary()
            },
    )
}

pub open spec fn low_prop(p: Prop) -> Prop
    decreases p,
{
    Prop { key: low_key(p.key), value: low_expr(p.value) }
}

pub open spec fn low_props(s: Seq<Prop>) -> Seq<Prop>
    decreases s,
{
    Seq::new(
        s.len(),
        |i: int|
            if 0 <= i < s.len() {
                low_prop(s[i])
            } else {
                arbitrary()
            },
    )
}

pub open spec fn low_attr(a: (Seq<char>, Expr)) -> (Seq<char>, Expr)
    decreases a,
{
    (a.0, low_expr(a.1))
}

pub open spec fn low_attrs(s: Seq<(Seq<char>, Expr)>) -> Seq<(Seq<char>, Expr)>
    decreases s,
{
    Seq::new(
        s.len(),
        |i: int|
            if 0 <= i < s.len() {
                low_attr(s[i])
            } else {
                arbitrary()
            },
    )
}

pub open spec fn low_slot(
    o: Option<(Target, Option<Expr>)>,
) -> Option<(Target, Option<Expr>)>
    decreases o,
{
    match o {
        Some(p) => Some((low_target(p.0), low_opt_expr(p.1))),
        None => None,
    }
}

pub open spec fn low_slots(s: Seq<Option<(Target, Option<Expr>)>>) -> Seq<Option<(Target, Option<Expr>)>>
    decreases s,
{
    Seq::new(
        s.len(),
        |i: int|
            if 0 <= i < s.len() {
                low_slot(s[i])
            } else {
                arbitrary()
            },
    )
}

pub open spec fn low_field(
    x: (Seq<char>, Target, Option<Expr>),
) -> (Seq<char>, Target, Option<Expr>)
    decreases x,
{
    (x.0, low_target(x.1), low_opt_expr(x.2))
}

pub open spec fn low_fields(s: Seq<(Seq<char>, Target, Option<Expr>)>) -> Seq<(Seq<char>, Target, Option<Expr>)>
    decreases s,
{
    Seq::new(
        s.len(),
        |i: int|
            if 0 <= i < s.len() {
                low_field(s[i])
            } else {
                arbitrary()
            },
    )
}

pub open spec fn low_stmts(s: Seq<Stmt>) -> Seq<Stmt>
    decreases s,
{
    Seq::new(
        s.len(),
        |i: int|
            if 0 <= i < s.len() {
                low_stmt(s[i])
            } else {
                arbitrary()
            },
    )
}

pub open spec fn low_opt_stmt(o: Option<Box<Stmt>>) -> Option<Box<Stmt>>
    decreases o,
{
    match o {
        Some(x) => Some(Box::new(low_stmt(*x))),
        None => None,
    }
}

pub open spec fn low_opt_stmts(o: Option<Seq<Stmt>>) -> Option<Seq<Stmt>>
    decreases o,
{
    match o {
        Some(x) => Some(low_stmts(x)),
        None => None,
    }
}

pub open spec fn low_case(c: (Expr, Seq<Stmt>)) -> (Expr, Seq<Stmt>)
    decreases c,
{
    (low_expr(c.0), low_stmts(c.1))
}

pub open spec fn low_cases(s: Seq<(Expr, Seq<Stmt>)>) -> Seq<(Expr, Seq<Stmt>)>
    decreases s,
{
    Seq::new(
        s.len(),
        |i: int|
            if 0 <= i < s.len() {
                low_case(s[i])
            } else {
                arbitrary()
            },
    )
}

pub fn lower_expr(e: &Expression) -> (r: Expression)
    ensures
        r@ == low_expr(e@),
    decreases e,
{
    match e {
        Expression::Value(_) => e.clone(),
        Expression::Binary { op, left, right } => Expression::Binary {
            op: *op,
            left: Box::new(lower_expr(left)),
            right: Box::new(lower_expr(right)),
        },
        Expression::Unary { op, operand } => Expression::Unary {
            op: *op,
            operand: Box::new(lower_expr(operand)),
        },
        Expression::Conditional { condition, then_expr, else_expr } => Expression::Conditional {
            condition: Box::new(lower_expr(condition)),
            then_expr: Box::new(lower_expr(then_expr)),
            else_expr: Box::new(lower_expr(else_expr)),
        },
        Expression::Member { object, property, optional } => Expression::Member {
            object: Box::new(lower_expr(object)),
            property: lower_key(property),
            optional: *optional,
        },
        Expression::Call { callee, arguments } => lower_call(
            lower_expr(callee),
            lower_exprs(arguments),
        ),
        Expression::New { callee, arguments } => Expression::New {
            callee: Box::new(lower_expr(callee)),
            arguments: lower_exprs(arguments),
        },
        Expression::Array { elements } => Expression::Array {
            elements: lower_elements(elements),
        },
        Expression::Object { properties } => Expression::Object {
            properties: lower_props(properties),
        },
        Expression::Function { .. } => e.clone(),
        Expression::Assignment { target, value } => Expression::Assignment {
            target: Box::new(lower_expr(target)),
            value: Box::new(lower_expr(value)),
        },
        Expression::Spread(x) => Expression::Spread(Box::new(lower_expr(x))),
        Expression::TemplateLiteral { quasis, expressions } => Expression::TemplateLiteral {
            quasis: clone_texts(quasis),
            expressions: lower_exprs(expressions),
        },
        Expression::RegExp { .. } => e.clone(),
        Expression::Yield { value, delegate } => Expression::Yield {
            value: Box::new(lower_expr(value)),
            delegate: *delegate,
        },
        Expression::Await(x) => Expression::Await(Box::new(lower_expr(x))),
        Expression::JSXElement { tag, attributes, children } => Expression::JSXElement {
            tag: tag.clone(),
            attributes: lower_attrs(attributes),
            children: lower_exprs(children),
        },
        Expression::Unknown { .. } => e.clone(),
    }
}

pub fn lower_key(e: &PropertyKey) -> (r: PropertyKey)
    ensures
        r@ == low_key(e@),
    decreases e,
{
    match e {
        PropertyKey::Ident(_) => e.clone(),
        PropertyKey::String(_) => e.clone(),
        PropertyKey::Index(_) => e.clone(),
        PropertyKey::Computed(x) => PropertyKey::Computed(Box::new(lower_expr(x))),
    }
}

pub fn lower_target(e: &AssignTarget) -> (r: AssignTarget)
    ensures
        r@ == low_target(e@),
    decreases e,
{
    match e {
        AssignTarget::Register(_) => e.clone(),
        AssignTarget::Variable(_) => e.clone(),
        AssignTarget::Member { object, property } => AssignTarget::Member {
            object: lower_expr(object),
            property: property.clone(),
        },
        AssignTarget::Index { object, key } => AssignTarget::Index {
            object: lower_expr(object),
            key: lower_expr(key),
        },
        AssignTarget::DestructuringArray(x) => AssignTarget::DestructuringArray(lower_slots(x)),
        AssignTarget::DestructuringArrayRest { elements, rest } => AssignTarget::DestructuringArrayRest {
            elements: lower_slots(elements),
            rest: Box::new(lower_target(rest)),
        },
        AssignTarget::DestructuringObject(x) => AssignTarget::DestructuringObject(lower_fields(x)),
        AssignTarget::DestructuringObjectRest { properties, rest } => AssignTarget::DestructuringObjectRest {
            properties: lower_fields(properties),
            rest: Box::new(lower_target(rest)),
        },
    }
}

pub fn lower_stmt(e: &Statement) -> (r: Statement)
    ensures
        r@ == low_stmt(e@),
    decreases e,
{
    match e {
        Statement::Expr(x) => Statement::Expr(lower_expr(x)),
        Statement::Let { name, value, kind } => Statement::Let {
            name: name.clone(),
            value: lower_expr(value),
            kind: *kind,
        },
        Statement::Assign { target, value } => Statement::Assign {
            target: lower_target(target),
            value: lower_expr(value),
        },
        Statement::Return(x) => Statement::Return(lower_opt_expr(x)),
        Statement::Throw(x) => Statement::Throw(lower_expr(x)),
        Statement::If { condition, then_body, else_body } => Statement::If {
            condition: lower_expr(condition),
            then_body: lower_stmts(then_body),
            else_body: lower_stmts(else_body),
        },
        Statement::While { condition, body } => Statement::While {
            condition: lower_expr(condition),
            body: lower_stmts(body),
        },
        Statement::DoWhile { body, condition } => Statement::DoWhile {
            body: lower_stmts(body),
            condition: lower_expr(condition),
        },
        Statement::For { init, condition, update, body } => Statement::For {
            init: lower_opt_stmt(init),
            condition: lower_opt_expr(condition),
            update: lower_opt_stmt(update),
            body: lower_stmts(body),
        },
        Statement::ForIn { variable, object, body } => Statement::ForIn {
            variable: variable.clone(),
            object: lower_expr(object),
            body: lower_stmts(body),
        },
        Statement::ForOf { variable, iterable, body } => Statement::ForOf {
            variable: variable.clone(),
            iterable: lower_expr(iterable),
            body: lower_stmts(body),
        },
        Statement::Block(x) => Statement::Block(lower_stmts(x)),
        Statement::TryCatch { try_body, catch_param, catch_body, finally_body } => Statement::TryCatch {
            try_body: lower_stmts(try_body),
            catch_param: clone_opt_text(catch_param),
            catch_body: lower_stmts(catch_body),
            finally_body: lower_stmts(finally_body),
        },
        Statement::Switch { discriminant, cases, default } => Statement::Switch {
            discriminant: lower_expr(discriminant),
            cases: lower_cases(cases),
            default: lower_opt_stmts(default),
        },
        Statement::Class { name, super_class, constructor, methods } => Statement::Class {
            name: name.clone(),
            super_class: lower_opt_expr(super_class),
            constructor: *constructor,
            methods: clone_methods(methods),
        },
        Statement::Comment(_) => e.clone(),
        Statement::Break(_) => e.clone(),
        Statement::Continue(_) => e.clone(),
    }
}

pub fn lower_opt_expr(o: &Option<Expression>) -> (r: Option<Expression>)
    ensures
        model::opt_expr(r) == low_opt_expr(model::opt_expr(*o)),
    decreases o,
{
    match o {
        Some(x) => Some(lower_expr(x)),
        None => None,
    }
}

pub fn lower_exprs(v: &Vec<Expression>) -> (r: Vec<Expression>)
    ensures
        model::exprs(r@) == low_exprs(model::exprs(v@)),
    decreases v,
{
    let mut out: Vec<Expression> = Vec::new();
    let mut i: usize = 0;
    while i < v.len()
        invariant
            i <= v.len(),
            out.len() == i,
            forall|k: int|
                0 <= k < i ==> (#[trigger] out@[k])@ == low_expr(v@[k]@),
        decreases v.len() - i,
    {
        out.push(lower_expr(&v[i]));
        i += 1;
    }
    assert(model::exprs(out@) =~= low_exprs(model::exprs(v@)));
    out
}

pub fn lower_elements(v: &Vec<Option<Expression>>) -> (r: Vec<Option<Expression>>)
    ensures
        model::opt_exprs(r@) == low_elements(model::opt_exprs(v@)),
    decreases v,
{
    let mut out: Vec<Option<Expression>> = Vec::new();
    let mut i: usize = 0;
    while i < v.len()
        invariant
            i <= v.len(),
            out.len() == i,
            forall|k: int|
                0 <= k < i ==> model::opt_expr(#[trigger] out@[k]) == low_opt_expr(model::opt_expr(v@[k])),
        decreases v.len() - i,
    {
        out.push(lower_opt_expr(&v[i]));
        i += 1;
    }
    assert(model::opt_exprs(out@) =~= low_elements(model::opt_exprs(v@)));
    out
}

pub fn lower_props(v: &Vec<ObjectProperty>) -> (r: Vec<ObjectProperty>)
    ensures
        model::props(r@) == low_props(model::props(v@)),
    decreases v,
{
    let mut out: Vec<ObjectProperty> = Vec::new();
    let mut i: usize = 0;
    while i < v.len()
        invariant
            i <= v.len(),
            out.len() == i,
            forall|k: int|
                0 <= k < i ==> (#[trigger] out@[k])@ == low_prop(v@[k]@),
        decreases v.len() - i,
    {
        out.push(ObjectProperty {
            key: lower_key(&v[i].key),
            value: lower_expr(&v[i].value),
        });
        i += 1;
    }
    assert(model::props(out@) =~= low_props(model::props(v@)));
    out
}

pub fn lower_attrs(v: &Vec<(String, Expression)>) -> (r: Vec<(String, Expression)>)
    ensures
        model::attrs(r@) == low_attrs(model::attrs(v@)),
    decreases v,
{
    let mut out: Vec<(String, Expression)> = Vec::new();
    let mut i: usize = 0;
    while i < v.len()
        invariant
            i <= v.len(),
            out.len() == i,
            forall|k: int|
                0 <= k < i ==> model::attr(#[trigger] out@[k]) == low_attr(model::attr(v@[k])),
        decreases v.len() - i,
    {
        out.push((v[i].0.clone(), lower_expr(&v[i].1)));
        i += 1;
    }
    assert(model::attrs(out@) =~= low_attrs(model::attrs(v@)));
    out
}

pub fn lower_slot(
    o: &Option<(AssignTarget, Option<Expression>)>,
) -> (r: Option<(AssignTarget, Option<Expression>)>)
    ensures
        model::slot(r) == low_slot(model::slot(*o)),
    decreases o,
{
    match o {
        Some(p) => Some((lower_target(&p.0), lower_opt_expr(&p.1))),
        None => None,
    }
}

pub fn lower_slots(v: &Vec<Option<(AssignTarget, Option<Expression>)>>) -> (r: Vec<Option<(AssignTarget, Option<Expression>)>>)
    ensures
        model::slots(r@) == low_slots(model::slots(v@)),
    decreases v,
{
    let mut out: Vec<Option<(AssignTarget, Option<Expression>)>> = Vec::new();
    let mut i: usize = 0;
    while i < v.len()
        invariant
            i <= v.len(),
            out.len() == i,
            forall|k: int|
                0 <= k < i ==> model::slot(#[trigger] out@[k]) == low_slot(model::slot(v@[k])),
        decreases v.len() - i,
    {
        out.push(lower_slot(&v[i]));
        i += 1;
    }
    assert(model::slots(out@) =~= low_slots(model::slots(v@)));
    out
}

pub fn lower_fields(v: &Vec<(String, AssignTarget, Option<Expression>)>) -> (r: Vec<(String, AssignTarget, Option<Expression>)>)
    ensures
        model::fields(r@) == low_fields(model::fields(v@)),
    decreases v,
{
    let mut out: Vec<(String, AssignTarget, Option<Expression>)> = Vec::new();
    let mut i: usize = 0;
    while i < v.len()
        invariant
            i <= v.len(),
            out.len() == i,
            forall|k: int|
                0 <= k < i ==> model::field(#[trigger] out@[k]) == low_field(model::field(v@[k])),
        decreases v.len() - i,
    {
        out.push((v[i].0.clone(), lower_target(&v[i].1), lower_opt_expr(&v[i].2)));
        i += 1;
    }
    assert(model::fields(out@) =~= low_fields(model::fields(v@)));
    out
}

pub fn lower_stmts(v: &Vec<Statement>) -> (r: Vec<Statement>)
    ensures
        model::stmts(r@) == low_stmts(model::stmts(v@)),
    decreases v,
{
    let mut out: Vec<Statement> = Vec::new();
    let mut i: usize = 0;
    while i < v.len()
        invariant
            i <= v.len(),
            out.len() == i,
            forall|k: int|
                0 <= k < i ==> (#[trigger] out@[k])@ == low_stmt(v@[k]@),
        decreases v.len() - i,
    {
        out.push(lower_stmt(&v[i]));
        i += 1;
    }
    assert(model::stmts(out@) =~= low_stmts(model::stmts(v@)));
    out
}

pub fn lower_opt_stmt(o: &Option<Box<Statement>>) -> (r: Option<Box<Statement>>)
    ensures
        model::opt_stmt(r) == low_opt_stmt(model::opt_stmt(*o)),
    decreases o,
{
    match o {
        Some(x) => Some(Box::new(lower_stmt(x))),
        None => None,
    }
}

pub fn lower_opt_stmts(o: &Option<Vec<Statement>>) -> (r: Option<Vec<Statement>>)
    ensures
        model::opt_stmts(r) == low_opt_stmts(model::opt_stmts(*o)),
    decreases o,
{
    match o {
        Some(x) => Some(lower_stmts(x)),
        None => None,
    }
}

pub fn lower_cases(v: &Vec<(Expression, Vec<Statement>)>) -> (r: Vec<(Expression, Vec<Statement>)>)
    ensures
        model::case_arms(r@) == low_cases(model::case_arms(v@)),
    decreases v,
{
    let mut out: Vec<(Expression, Vec<Statement>)> = Vec::new();
    let mut i: usize = 0;
    while i < v.len()
        invariant
            i <= v.len(),
            out.len() == i,
            forall|k: int|
                0 <= k < i ==> model::case_arm(#[trigger] out@[k]) == low_case(model::case_arm(v@[k])),
        decreases v.len() - i,
    {
        out.push((lower_expr(&v[i].0), lower_stmts(&v[i].1)));
        i += 1;
    }
    assert(model::case_arms(out@) =~= low_cases(model::case_arms(v@)));
    out
}

fn jsx_factory_name(callee: &Expression) -> (r: Option<String>)
    ensures
        text::opt(r) == factory(callee@),
{
    proof {
        reveal_with_fuel(Expression::view, 2);
        reveal_with_fuel(PropertyKey::view, 2);
    }
    match callee {
        Expression::Member { property: PropertyKey::Ident(p), .. } => Some(strip_underscore(p)),
        Expression::Member { property: PropertyKey::String(p), .. } => Some(strip_underscore(p)),
        Expression::Value(Value::Variable(n)) => Some(strip_underscore(n)),
        _ => None,
    }
}

fn strip_underscore(n: &String) -> (r: String)
    ensures
        r@ == without_underscore(n@),
{
    match text::strip_prefix(n, "_") {
        Some(rest) => rest,
        None => n.clone(),
    }
}

fn is_modern_name(n: &str) -> (r: bool)
    ensures
        r == modern_name(n@),
{
    text::same(n, "jsx") || text::same(n, "jsxs") || text::same(n, "jsxDEV") || text::same(
        n,
        "jsxsDEV",
    ) || text::same(n, "jsxDev") || text::same(n, "jsxsDev")
}

fn is_modern_factory(callee: &Expression) -> (r: bool)
    ensures
        r == modern(callee@),
{
    match jsx_factory_name(callee) {
        Some(n) => is_modern_name(&n),
        None => false,
    }
}

/// Whether a callee is an element factory.
pub fn is_jsx_call(callee: &Expression) -> (r: bool)
    ensures
        r == jsx_callee(callee@),
{
    match jsx_factory_name(callee) {
        Some(n) => text::same(&n, "createElement") || is_modern_name(&n),
        None => false,
    }
}

pub(super) fn find_tag(e: &Expression) -> (r: Option<String>)
    ensures
        text::opt(r) == tag(e@),
{
    proof {
        reveal_with_fuel(Expression::view, 3);
        reveal_with_fuel(PropertyKey::view, 2);
    }
    match e {
        Expression::Value(Value::Constant(Constant::String(s))) => Some(s.clone()),
        Expression::Value(Value::Variable(v)) => Some(v.clone()),
        Expression::Member { object, property, .. } => match (&**object, property) {
            (Expression::Value(Value::Variable(o)), PropertyKey::Ident(p)) => Some(
                text::concat3(o, ".", p),
            ),
            _ => None,
        },
        _ => None,
    }
}

fn make_tag(n: String) -> (r: String)
    ensures
        r@ == element_tag(n@),
{
    if text::same(&n, "Fragment") || text::same(&n, "_Fragment") || text::ends_with(
        &n,
        ".Fragment",
    ) {
        let e = "".to_owned();
        proof {
            reveal_strlit("");
            assert(e@ =~= Seq::<char>::empty());
        }
        e
    } else {
        n
    }
}

fn is_nothing(e: &Expression) -> (r: bool)
    ensures
        r == nothing(e@),
{
    match e {
        Expression::Value(Value::Constant(Constant::Null)) => true,
        Expression::Value(Value::Constant(Constant::Undefined)) => true,
        _ => false,
    }
}

fn name_of_key(k: &PropertyKey) -> (r: Option<&String>)
    ensures
        match r {
            Some(n) => key_name(k@) == Some(n@),
            None => key_name(k@) is None,
        },
{
    match k {
        PropertyKey::Ident(n) => Some(n),
        PropertyKey::String(n) => Some(n),
        _ => None,
    }
}

fn push_present(v: &Vec<Option<Expression>>, out: &mut Vec<Expression>)
    ensures
        model::exprs(final(out)@) == model::exprs(old(out)@) + present(model::opt_exprs(v@)),
{
    let ghost all = model::opt_exprs(v@);
    let ghost first = model::exprs(out@);
    let mut i: usize = 0;
    assert(first + present(all.take(0)) =~= first);
    while i < v.len()
        invariant
            i <= v.len(),
            all == model::opt_exprs(v@),
            model::exprs(out@) == first + present(all.take(i as int)),
        decreases v.len() - i,
    {
        assert(all.take(i + 1).drop_last() =~= all.take(i as int));
        assert(all[i as int] == model::opt_expr(v@[i as int]));
        if let Some(e) = &v[i] {
            let ghost before = model::exprs(out@);
            let ghost p = present(all.take(i as int));
            out.push(e.clone());
            assert(model::exprs(out@) =~= before.push(e@));
            assert(first + p.push(e@) =~= (first + p).push(e@));
        }
        i += 1;
    }
    assert(all.take(all.len() as int) =~= all);
}

fn push_props(
    ps: &Vec<ObjectProperty>,
    m: bool,
    attrs: &mut Vec<(String, Expression)>,
    children: &mut Vec<Expression>,
)
    ensures
        model::attrs(final(attrs)@) == model::attrs(old(attrs)@) + prop_attrs(
            model::props(ps@),
            m,
        ),
        model::exprs(final(children)@) == model::exprs(old(children)@) + (if m {
            prop_children(model::props(ps@))
        } else {
            Seq::empty()
        }),
{
    let ghost all = model::props(ps@);
    let ghost a0 = model::attrs(attrs@);
    let ghost c0 = model::exprs(children@);
    let mut i: usize = 0;
    assert(a0 + prop_attrs(all.take(0), m) =~= a0);
    assert(c0 + prop_children(all.take(0)) =~= c0);
    assert(c0 + Seq::<Expr>::empty() =~= c0);
    while i < ps.len()
        invariant
            i <= ps.len(),
            all == model::props(ps@),
            model::attrs(attrs@) == a0 + prop_attrs(all.take(i as int), m),
            m ==> model::exprs(children@) == c0 + prop_children(all.take(i as int)),
            !m ==> model::exprs(children@) == c0,
        decreases ps.len() - i,
    {
        assert(all.take(i + 1).drop_last() =~= all.take(i as int));
        assert(all[i as int] == ps@[i as int]@);
        let ghost p = all[i as int];
        let ghost pa = prop_attrs(all.take(i as int), m);
        let ghost pc = prop_children(all.take(i as int));
        if let Some(n) = name_of_key(&ps[i].key) {
            if m && text::same(n, "children") {
                let ghost before = model::exprs(children@);
                if let Expression::Array { elements } = &ps[i].value {
                    push_present(elements, children);
                    assert((c0 + pc) + children_of(p.value) =~= c0 + (pc + children_of(p.value)));
                } else {
                    children.push(ps[i].value.clone());
                    assert(children_of(p.value) == seq![p.value]);
                    assert(model::exprs(children@) =~= before + seq![p.value]);
                    assert((c0 + pc) + seq![p.value] =~= c0 + (pc + seq![p.value]));
                }
            } else {
                let ghost before = model::attrs(attrs@);
                attrs.push((n.clone(), ps[i].value.clone()));
                assert(model::attrs(attrs@) =~= before.push((n@, p.value)));
                assert(a0 + pa.push((n@, p.value)) =~= (a0 + pa).push((n@, p.value)));
            }
        }
        i += 1;
    }
    assert(all.take(all.len() as int) =~= all);
}

fn build_jsx_element(callee: &Expression, args: &Vec<Expression>) -> (r: Option<Expression>)
    requires
        args@.len() > 0,
    ensures
        model::opt_expr(r) == element(callee@, model::exprs(args@)),
{
    let ghost all = model::exprs(args@);
    assert(all.len() == args@.len());
    assert(all[0] == args@[0]@);
    let n = match find_tag(&args[0]) {
        Some(n) => n,
        None => return None,
    };
    let m: bool = is_modern_factory(callee);
    let mut attrs: Vec<(String, Expression)> = Vec::new();
    let mut children: Vec<Expression> = Vec::new();
    assert(model::attrs(attrs@) =~= Seq::empty());
    assert(model::exprs(children@) =~= Seq::empty());
    if m && args.len() >= 3 {
        assert(all[2] == args@[2]@);
        if !is_nothing(&args[2]) {
            attrs.push(("key".to_owned(), args[2].clone()));
            assert(model::attrs(attrs@) =~= seq![("key"@, all[2])]);
        }
    }
    let ghost ka = if m {
        key_attr(all)
    } else {
        Seq::empty()
    };
    assert(model::attrs(attrs@) =~= ka);
    if args.len() >= 2 {
        assert(all[1] == args@[1]@);
        if !is_nothing(&args[1]) {
            if let Expression::Object { properties } = &args[1] {
                push_props(properties, m, &mut attrs, &mut children);
                assert(Seq::<Expr>::empty() + prop_children(model::props(properties@))
                    =~= prop_children(model::props(properties@)));
                assert(Seq::<Expr>::empty() + Seq::<Expr>::empty() =~= Seq::<Expr>::empty());
            } else {
                let spread: bool = match &args[1] {
                    Expression::Spread(_) => true,
                    _ => false,
                };
                assert(spread == (all[1] is Spread));
                let value: Expression = if m || spread {
                    args[1].clone()
                } else {
                    Expression::Spread(Box::new(args[1].clone()))
                };
                let ghost x = value@;
                attrs.push(("...".to_owned(), value));
                assert(model::attrs(attrs@) =~= ka + seq![("..."@, x)]);
                assert(!(all[1] is Object));
            }
        } else {
            assert(!(all[1] is Object));
        }
    }
    assert(model::attrs(attrs@) =~= ka + arg_attrs(all, m));
    if !m {
        let mut i: usize = 2;
        while i < args.len()
            invariant
                2 <= i,
                i <= args.len() || i == 2,
                all == model::exprs(args@),
                all.len() == args@.len(),
                model::exprs(children@) == (if i <= args@.len() {
                    all.subrange(2, i as int)
                } else {
                    Seq::empty()
                }),
            decreases args.len() - i,
        {
            let ghost before = model::exprs(children@);
            assert(all[i as int] == args@[i as int]@);
            children.push(args[i].clone());
            assert(model::exprs(children@) =~= before.push(all[i as int]));
            assert(all.subrange(2, i + 1) =~= all.subrange(2, i as int).push(all[i as int]));
            i += 1;
        }
        if args.len() > 2 {
            assert(i == args.len());
        }
    }
    assert(model::exprs(children@) =~= arg_children(all, m));
    Some(Expression::JSXElement { tag: make_tag(n), attributes: attrs, children })
}

fn lower_call(callee: Expression, args: Vec<Expression>) -> (r: Expression)
    ensures
        r@ == lowered(callee@, model::exprs(args@)),
{
    assert(model::exprs(args@).len() == args@.len());
    if is_jsx_call(&callee) && args.len() > 0 {
        if let Some(x) = build_jsx_element(&callee, &args) {
            return x;
        }
    }
    Expression::Call { callee: Box::new(callee), arguments: args }
}

/// Lowers the factory calls of a function.
pub struct JSXReconstructor;

impl JSXReconstructor {
    pub fn new() -> (r: JSXReconstructor)
        ensures
            r == JSXReconstructor,
    {
        JSXReconstructor
    }

    /// Lowers the factory calls in an expression.
    pub fn visit_expression(&mut self, e: &mut Expression)
        ensures
            final(e)@ == low_expr(old(e)@),
    {
        let x = lower_expr(e);
        *e = x;
    }

    /// Lowers the factory calls in a list of statements.
    pub fn visit_statement_list(&mut self, v: &mut Vec<Statement>)
        ensures
            model::stmts(final(v)@) == low_stmts(model::stmts(old(v)@)),
    {
        let x = lower_stmts(v);
        *v = x;
    }
}

} // verus!
