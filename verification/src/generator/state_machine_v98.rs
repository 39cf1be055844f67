//! Recovers a generator from the state machine that it is compiled to.
//!
//! The machine dispatches on a label. Each case handles the resume protocol and then runs to a
//! suspend point, which returns `{ value, done }`; the case that returns with `done` ends it.

use crate::dict;
use crate::ir::bindings;
use crate::ir::model;
use crate::ir::model::{Const, Expr, Key, Prop, Stmt, Target, Val};
use crate::ir::visit;
use crate::ir::{
    AssignTarget, BinaryOp, Constant, Expression, ObjectProperty, PropertyKey, Statement, UnaryOp,
    Value,
};
use crate::text;
use vstd::prelude::*;

verus! {

pub open spec fn int_const(e: Expr) -> Option<i32> {
    match e {
        Expr::Value(Val::Constant(Const::Integer(n))) => Some(n),
        _ => None,
    }
}

/// Whether an expression is a variable, of the function or of a scope around it.
pub open spec fn is_var(e: Expr) -> bool {
    match e {
        Expr::Value(Val::Variable(_)) => true,
        Expr::Value(Val::ClosureVar { .. }) => true,
        _ => false,
    }
}

/// Whether a condition compares a variable with a whole number.
pub open spec fn label_condition(e: Expr) -> bool {
    match e {
        Expr::Binary { op: BinaryOp::StrictEq, left, right } => (int_const(*left) is Some
            && is_var(*right)) || (is_var(*left) && int_const(*right) is Some),
        _ => false,
    }
}

/// Whether a statement dispatches on a label.
pub open spec fn dispatch_if(s: Stmt) -> bool {
    match s {
        Stmt::If { condition, .. } => label_condition(condition),
        _ => false,
    }
}

/// The first statement of a list that dispatches on a label.
pub open spec fn dispatch_here(s: Seq<Stmt>) -> Option<Stmt>
    decreases s.len(),
{
    if s.len() == 0 {
        None
    } else if dispatch_if(s[0]) {
        Some(s[0])
    } else {
        dispatch_here(s.skip(1))
    }
}

/// The body of the first `try` of a list and of the branches of its conditionals.
pub open spec fn find_try(s: Seq<Stmt>) -> Option<Seq<Stmt>>
    decreases s, 0nat,
{
    if s.len() == 0 {
        None
    } else {
        match try_in(s[0]) {
            Some(b) => Some(b),
            None => find_try(s.skip(1)),
        }
    }
}

pub open spec fn try_in(s: Stmt) -> Option<Seq<Stmt>>
    decreases s, 0nat,
{
    match s {
        Stmt::TryCatch { try_body, .. } => Some(try_body),
        Stmt::If { then_body, else_body, .. } => match find_try(then_body) {
            Some(b) => Some(b),
            None => find_try(else_body),
        },
        _ => None,
    }
}

/// The variable that a condition compares with a whole number, and the number.
pub open spec fn label_test(e: Expr) -> Option<(Expr, i32)> {
    match e {
        Expr::Binary { op: BinaryOp::StrictEq, left, right } => if int_const(*left) is Some
            && is_var(*right) {
            Some((*right, int_const(*left)->0))
        } else if is_var(*left) && int_const(*right) is Some {
            Some((*left, int_const(*right)->0))
        } else {
            None
        },
        _ => None,
    }
}

/// Whether a statement dispatches on another variable than the one given.
pub open spec fn on_other(x: Stmt, label: Expr) -> bool {
    match x {
        Stmt::If { condition, .. } => label_test(condition) matches Some(c) && c.0 != label,
        _ => false,
    }
}

/// The dispatch behind the guards of a list, or else its first: a machine checks its status
/// before its label.
pub open spec fn dispatch_nested(s: Seq<Stmt>) -> Option<Stmt>
    decreases s, 1nat,
{
    match dispatch_guarded(s) {
        Some(x) => Some(x),
        None => dispatch_here(s),
    }
}

pub open spec fn dispatch_guarded(s: Seq<Stmt>) -> Option<Stmt>
    decreases s, 0nat,
{
    if s.len() == 0 {
        None
    } else {
        match behind_guard(s[0]) {
            Some(x) => Some(x),
            None => dispatch_guarded(s.skip(1)),
        }
    }
}

/// The dispatch behind a guard. A guard compares the status with a number other than the first
/// label; where it does not hold, the machine goes on to dispatch on another variable.
pub open spec fn behind_guard(s: Stmt) -> Option<Stmt>
    decreases s, 0nat,
{
    match s {
        Stmt::If { condition, else_body, .. } => match label_test(condition) {
            Some(c) => match dispatch_nested(else_body) {
                Some(x) => if c.1 != 0 && on_other(x, c.0) {
                    Some(x)
                } else {
                    None
                },
                None => None,
            },
            None => None,
        },
        _ => None,
    }
}

/// The dispatch of a list, behind its guards first, or else of the branches of its conditionals.
pub open spec fn dispatch_anywhere(s: Seq<Stmt>) -> Option<Stmt>
    decreases s, 1nat,
{
    match dispatch_nested(s) {
        Some(x) => Some(x),
        None => dispatch_below(s),
    }
}

pub open spec fn dispatch_below(s: Seq<Stmt>) -> Option<Stmt>
    decreases s, 0nat,
{
    if s.len() == 0 {
        None
    } else {
        match dispatch_in(s[0]) {
            Some(x) => Some(x),
            None => dispatch_below(s.skip(1)),
        }
    }
}

pub open spec fn dispatch_in(s: Stmt) -> Option<Stmt>
    decreases s, 0nat,
{
    match s {
        Stmt::If { then_body, else_body, .. } => match dispatch_anywhere(then_body) {
            Some(x) => Some(x),
            None => dispatch_anywhere(else_body),
        },
        _ => None,
    }
}

/// The statement that dispatches on the label of a machine: in the body of its `try`, if it is
/// there.
pub open spec fn dispatch(s: Seq<Stmt>) -> Option<Stmt> {
    match find_try(s) {
        Some(b) => match dispatch_here(b) {
            Some(x) => Some(x),
            None => dispatch_anywhere(s),
        },
        None => dispatch_anywhere(s),
    }
}

/// The cases of a dispatch in order. What is left when no label fits is the last.
pub open spec fn cases(s: Stmt) -> Seq<Seq<Stmt>>
    decreases s,
{
    match s {
        Stmt::If { condition, then_body, else_body } => if label_condition(condition) {
            seq![then_body] + (if else_body.len() == 1 && dispatch_if(else_body[0]) {
                cases(else_body[0])
            } else if else_body.len() > 0 {
                seq![else_body]
            } else {
                Seq::empty()
            })
        } else {
            Seq::empty()
        },
        _ => Seq::empty(),
    }
}

/// The names that expressions compare with a whole number: they hold the state of the machine.
pub open spec fn state_names(s: Seq<Expr>) -> Seq<Seq<char>>
    decreases s.len(),
{
    if s.len() == 0 {
        Seq::empty()
    } else {
        state_names(s.drop_last()) + compared_names(s.last())
    }
}

pub open spec fn compared_names(e: Expr) -> Seq<Seq<char>> {
    match e {
        Expr::Binary { op: BinaryOp::StrictEq, left, right } => compared(*left, *right) + compared(
            *right,
            *left,
        ),
        _ => Seq::empty(),
    }
}

pub open spec fn compared(a: Expr, b: Expr) -> Seq<Seq<char>> {
    if int_const(a) is Some {
        match b {
            Expr::Value(Val::Variable(n)) => seq![n],
            _ => Seq::empty(),
        }
    } else {
        Seq::empty()
    }
}

pub open spec fn is_one_or_two(e: Expr) -> bool {
    int_const(e) == Some(1i32) || int_const(e) == Some(2i32)
}

/// Whether a condition asks how a generator was resumed.
pub open spec fn protocol_condition(e: Expr) -> bool {
    match e {
        Expr::Binary { op: BinaryOp::StrictEq, left, right } => (*left == Expr::Value(
            Val::Parameter(0),
        ) && is_one_or_two(*right)) || (*right == Expr::Value(Val::Parameter(0)) && is_one_or_two(
            *left,
        )),
        _ => false,
    }
}

/// What a case does when the generator is resumed to go on.
pub open spec fn stripped(s: Seq<Stmt>) -> Seq<Stmt>
    decreases s,
{
    if s.len() == 1 {
        match s[0] {
            Stmt::If { condition, else_body, .. } => if protocol_condition(condition) {
                stripped(else_body)
            } else {
                s
            },
            _ => s,
        }
    } else {
        s
    }
}

pub open spec fn key_is(k: Key, n: Seq<char>) -> bool {
    k == Key::Ident(n) || k == Key::String(n)
}

pub open spec fn first_prop(ps: Seq<Prop>, n: Seq<char>) -> Option<Expr>
    decreases ps.len(),
{
    if ps.len() == 0 {
        None
    } else if key_is(ps[0].key, n) {
        Some(ps[0].value)
    } else {
        first_prop(ps.skip(1), n)
    }
}

pub open spec fn last_prop(ps: Seq<Prop>, n: Seq<char>) -> Option<Expr>
    decreases ps.len(),
{
    if ps.len() == 0 {
        None
    } else if key_is(ps.last().key, n) {
        Some(ps.last().value)
    } else {
        last_prop(ps.drop_last(), n)
    }
}

pub open spec fn truthy(e: Expr) -> bool {
    match e {
        Expr::Value(Val::Constant(Const::Bool(b))) => b,
        Expr::Value(Val::Constant(Const::Integer(n))) => n != 0,
        _ => false,
    }
}

/// The value of a result object, and whether it is the last.
pub open spec fn result_object(e: Expr) -> Option<(Expr, bool)> {
    match e {
        Expr::Object { properties } => match (
            last_prop(properties, "value"@),
            last_prop(properties, "done"@),
        ) {
            (Some(v), Some(d)) => Some((v, truthy(d))),
            _ => None,
        },
        _ => None,
    }
}

pub open spec fn variable(n: Seq<char>) -> Expr {
    Expr::Value(Val::Variable(n))
}

/// Whether a target is the `value` slot of the object in a variable.
pub open spec fn value_slot(t: Target, n: Seq<char>) -> bool {
    match t {
        Target::Index { object, key } => object == variable(n) && int_const(key) == Some(0i32),
        Target::Member { object, property } => object == variable(n) && property == "value"@,
        _ => false,
    }
}

/// The return of a result object literal.
pub open spec fn return_literal(s: Stmt) -> Option<(Expr, bool)> {
    match s {
        Stmt::Return(Some(e)) => result_object(e),
        _ => None,
    }
}

/// A result object that is stored and then returned.
pub open spec fn return_stored(s: Stmt, t: Stmt) -> Option<(Expr, bool)> {
    match bindings::binding(s) {
        Some(b) => if t == Stmt::Return(Some(variable(b.0))) {
            result_object(b.1)
        } else {
            None
        },
        None => None,
    }
}

/// A result object that is stored, given its value and then returned.
pub open spec fn return_filled(s: Stmt, f: Stmt, t: Stmt) -> Option<(Expr, bool)> {
    match (s, f) {
        (
            Stmt::Assign { target: Target::Variable(n), value: Expr::Object { properties } },
            Stmt::Assign { target, value },
        ) => if t == Stmt::Return(Some(variable(n))) && value_slot(target, n) {
            match first_prop(properties, "done"@) {
                Some(d) => Some((value, truthy(d))),
                None => None,
            }
        } else {
            None
        },
        _ => None,
    }
}

/// The suspend point that starts at a position: its value, whether it is the last, and how many
/// statements it is.
pub open spec fn result_return(s: Seq<Stmt>, i: int) -> Option<(Expr, bool, int)> {
    match return_literal(s[i]) {
        Some(x) => Some((x.0, x.1, 1int)),
        None => {
            let two = if i + 1 < s.len() {
                return_stored(s[i], s[i + 1])
            } else {
                None
            };
            match two {
                Some(x) => Some((x.0, x.1, 2int)),
                None => if i + 2 < s.len() {
                    match return_filled(s[i], s[i + 1], s[i + 2]) {
                        Some(x) => Some((x.0, x.1, 3int)),
                        None => None,
                    }
                } else {
                    None
                },
            }
        },
    }
}

pub open spec fn undefined(e: Expr) -> bool {
    e == Expr::Value(Val::Constant(Const::Undefined))
}

/// Whether a statement only keeps the state of the machine: it writes or copies a state variable,
/// or clears a variable.
pub open spec fn bookkeeping(s: Stmt, vars: Seq<Seq<char>>) -> bool {
    match s {
        Stmt::Assign { target: Target::Variable(n), value } => {
            ||| vars.contains(n)
            ||| undefined(value)
            ||| (value matches Expr::Value(Val::Variable(m)) && vars.contains(m))
        },
        _ => false,
    }
}

pub open spec fn prefixed(a: Seq<Stmt>, o: Option<Seq<Stmt>>) -> Option<Seq<Stmt>> {
    match o {
        Some(b) => Some(a + b),
        None => None,
    }
}

/// A branch, from a position on, that ends the generator: by throwing, or by the last result.
pub open spec fn exit_from(s: Seq<Stmt>, i: int, vars: Seq<Seq<char>>) -> Option<Seq<Stmt>>
    decreases s.len() - i,
{
    if i < 0 || i >= s.len() {
        None
    } else if s[i] is Throw {
        if i + 1 == s.len() {
            Some(seq![s[i]])
        } else {
            None
        }
    } else {
        match result_return(s, i) {
            Some(x) => if x.1 && i + x.2 == s.len() {
                Some(
                    seq![
                        Stmt::Return(
                            if undefined(x.0) {
                                None
                            } else {
                                Some(x.0)
                            },
                        ),
                    ],
                )
            } else {
                None
            },
            None => if bookkeeping(s[i], vars) {
                exit_from(s, i + 1, vars)
            } else {
                prefixed(seq![s[i]], exit_from(s, i + 1, vars))
            },
        }
    }
}

/// What a case does before its suspend point, the value there and whether it is the last.
#[verifier::ext_equal]
pub struct Suspend {
    pub pre: Seq<Stmt>,
    pub value: Expr,
    pub done: bool,
}

pub open spec fn before(a: Seq<Stmt>, o: Option<Suspend>) -> Option<Suspend> {
    match o {
        Some(x) => Some(Suspend { pre: a + x.pre, value: x.value, done: x.done }),
        None => None,
    }
}

pub open spec fn guard(c: Expr, body: Seq<Stmt>) -> Stmt {
    Stmt::If { condition: c, then_body: body, else_body: Seq::empty() }
}

pub open spec fn negated(c: Expr) -> Expr {
    Expr::Unary { op: UnaryOp::Not, operand: Box::new(c) }
}

/// The suspend point that a case runs to from a position on. A conditional at its end that ends
/// the generator in one branch is a guard before what the other branch does.
pub open spec fn suspend_from(s: Seq<Stmt>, i: int, vars: Seq<Seq<char>>) -> Option<Suspend>
    decreases s, s.len() - i,
{
    if i < 0 || i >= s.len() {
        None
    } else {
        match result_return(s, i) {
            Some(x) => if i + x.2 == s.len() {
                Some(Suspend { pre: Seq::empty(), value: x.0, done: x.1 })
            } else {
                None
            },
            None => match branch_suspend(s[i], i + 1 == s.len(), vars) {
                Some(r) => r,
                None => if bookkeeping(s[i], vars) {
                    suspend_from(s, i + 1, vars)
                } else {
                    before(seq![s[i]], suspend_from(s, i + 1, vars))
                },
            },
        }
    }
}

pub open spec fn branch_suspend(s: Stmt, last: bool, vars: Seq<Seq<char>>) -> Option<
    Option<Suspend>,
>
    decreases s, 0int,
{
    match s {
        Stmt::If { condition, then_body, else_body } => if last && else_body.len() > 0 {
            match exit_from(then_body, 0, vars) {
                Some(x) => Some(
                    before(seq![guard(condition, x)], suspend_from(else_body, 0, vars)),
                ),
                None => match exit_from(else_body, 0, vars) {
                    Some(x) => Some(
                        before(
                            seq![guard(negated(condition), x)],
                            suspend_from(then_body, 0, vars),
                        ),
                    ),
                    None => None,
                },
            }
        } else {
            None
        },
        _ => None,
    }
}

/// A case: what the value that resumes it is bound to, and the suspend point it runs to.
#[verifier::ext_equal]
pub struct Case {
    pub resume: Option<Target>,
    pub suspend: Suspend,
}

/// What the value that resumes a case is bound to.
pub open spec fn resume_binding(s: Seq<Stmt>) -> Option<Target> {
    if s.len() > 0 {
        match s[0] {
            Stmt::Assign { target, value } => if value == Expr::Value(Val::Parameter(1)) {
                Some(target)
            } else {
                None
            },
            _ => None,
        }
    } else {
        None
    }
}

pub open spec fn parsed(body: Seq<Stmt>, vars: Seq<Seq<char>>) -> Option<Case> {
    let s = stripped(body);
    let resume = resume_binding(s);
    let from = if resume is Some {
        1int
    } else {
        0int
    };
    match suspend_from(s, from, vars) {
        Some(x) => Some(Case { resume, suspend: x }),
        None => None,
    }
}

/// Whether a statement does nothing but leave.
pub open spec fn only_exits(s: Stmt) -> bool
    decreases s,
{
    match s {
        Stmt::Throw(_) => true,
        Stmt::Return(_) => true,
        Stmt::Comment(_) => true,
        Stmt::If { then_body, else_body, .. } => all_only_exit(then_body) && all_only_exit(
            else_body,
        ),
        Stmt::Block(body) => all_only_exit(body),
        _ => false,
    }
}

pub open spec fn all_only_exit(s: Seq<Stmt>) -> bool
    decreases s,
{
    forall|i: int| 0 <= i < s.len() ==> only_exits(#[trigger] s[i])
}

/// Whether a case handles an error: past the resume protocol it only leaves.
pub open spec fn catch_label(body: Seq<Stmt>) -> bool {
    let s = stripped(body);
    s.len() > 0 && all_only_exit(s)
}

/// Whether a result says something, or is the result of some work.
pub open spec fn holds_work(c: Case) -> bool {
    c.suspend.pre.len() > 0 || !(undefined(c.suspend.value) || c.suspend.value == Expr::Value(
        Val::Constant(Const::Null),
    ))
}

/// The cases of a machine: those that suspend, and the one that ends it.
#[verifier::ext_equal]
pub struct Machine {
    pub suspends: Seq<Case>,
    pub terminal: Option<Case>,
}

/// The cases in order. A case that is not understood is an error label, or the machine is not
/// understood; neither is it with two ends that do some work.
pub open spec fn gathered(bodies: Seq<Seq<Stmt>>, vars: Seq<Seq<char>>) -> Option<Machine>
    decreases bodies.len(),
{
    if bodies.len() == 0 {
        Some(Machine { suspends: Seq::empty(), terminal: None })
    } else {
        match gathered(bodies.drop_last(), vars) {
            Some(m) => match parsed(bodies.last(), vars) {
                Some(c) => with_case(m, c),
                None => if catch_label(bodies.last()) {
                    Some(m)
                } else {
                    None
                },
            },
            None => None,
        }
    }
}

pub open spec fn with_case(m: Machine, c: Case) -> Option<Machine> {
    if !c.suspend.done {
        Some(Machine { suspends: m.suspends.push(c), terminal: m.terminal })
    } else {
        match m.terminal {
            Some(t) => if !holds_work(t) {
                Some(Machine { suspends: m.suspends, terminal: Some(c) })
            } else if holds_work(c) {
                None
            } else {
                Some(m)
            },
            None => Some(Machine { suspends: m.suspends, terminal: Some(c) }),
        }
    }
}

/// A `yield` whose result is bound to a target.
pub open spec fn yield_stmt(value: Expr, target: Option<Target>) -> Stmt {
    let e = Expr::Yield { value: Box::new(value), delegate: false };
    match target {
        Some(t) => Stmt::Assign { target: t, value: e },
        None => Stmt::Expr(e),
    }
}

/// The code of the suspending cases, with a `yield` between each two.
pub open spec fn chain(s: Seq<Case>) -> Seq<Stmt>
    decreases s.len(),
{
    if s.len() == 0 {
        Seq::empty()
    } else if s.len() == 1 {
        s[0].suspend.pre
    } else {
        let rest = s.drop_last();
        chain(rest) + seq![yield_stmt(rest.last().suspend.value, s.last().resume)]
            + s.last().suspend.pre
    }
}

/// The body that the cases of a machine are.
pub open spec fn emitted(suspends: Seq<Case>, t: Case) -> Seq<Stmt> {
    let body = chain(suspends) + seq![yield_stmt(suspends.last().suspend.value, t.resume)]
        + t.suspend.pre;
    if undefined(t.suspend.value) {
        body
    } else {
        body.push(Stmt::Return(Some(t.suspend.value)))
    }
}

/// The body of the generator that a state machine is.
pub open spec fn generator(body: Seq<Stmt>) -> Option<Seq<Stmt>> {
    match dispatch(body) {
        Some(d) => {
            let all = cases(d);
            if all.len() < 2 {
                None
            } else {
                match gathered(all, state_names(visit::stmts_visits(body))) {
                    Some(m) => match m.terminal {
                        Some(t) => if m.suspends.len() > 0 {
                            Some(emitted(m.suspends, t))
                        } else {
                            None
                        },
                        None => None,
                    },
                    None => None,
                }
            }
        },
        None => None,
    }
}

fn find_int(e: &Expression) -> (r: Option<i32>)
    ensures
        r == int_const(e@),
{
    match e {
        Expression::Value(Value::Constant(Constant::Integer(n))) => Some(*n),
        _ => None,
    }
}

fn is_variable(e: &Expression) -> (r: bool)
    ensures
        r == is_var(e@),
{
    match e {
        Expression::Value(Value::Variable(_)) => true,
        Expression::Value(Value::ClosureVar { .. }) => true,
        _ => false,
    }
}

fn is_label_condition(e: &Expression) -> (r: bool)
    ensures
        r == label_condition(e@),
{
    match e {
        Expression::Binary { op: BinaryOp::StrictEq, left, right } => (find_int(left).is_some()
            && is_variable(right)) || (is_variable(left) && find_int(right).is_some()),
        _ => false,
    }
}

fn is_label_dispatch_if(s: &Statement) -> (r: bool)
    ensures
        r == dispatch_if(s@),
{
    match s {
        Statement::If { condition, .. } => is_label_condition(condition),
        _ => false,
    }
}

fn find_dispatch_here(v: &Vec<Statement>) -> (r: Option<&Statement>)
    ensures
        match r {
            Some(x) => dispatch_here(model::stmts(v@)) == Some(x@),
            None => dispatch_here(model::stmts(v@)) is None,
        },
{
    let ghost all = model::stmts(v@);
    let mut i: usize = 0;
    assert(all.skip(0) =~= all);
    while i < v.len()
        invariant
            i <= v.len(),
            all == model::stmts(v@),
            dispatch_here(all) == dispatch_here(all.skip(i as int)),
        decreases v.len() - i,
    {
        assert(all.skip(i as int)[0] == v@[i as int]@);
        assert(all.skip(i as int).skip(1) =~= all.skip(i + 1));
        if is_label_dispatch_if(&v[i]) {
            return Some(&v[i]);
        }
        i += 1;
    }
    None
}

fn find_generator_try(v: &Vec<Statement>) -> (r: Option<&Vec<Statement>>)
    ensures
        match r {
            Some(b) => find_try(model::stmts(v@)) == Some(model::stmts(b@)),
            None => find_try(model::stmts(v@)) is None,
        },
    decreases v, 0nat,
{
    let ghost all = model::stmts(v@);
    let mut i: usize = 0;
    assert(all.skip(0) =~= all);
    while i < v.len()
        invariant
            i <= v.len(),
            all == model::stmts(v@),
            find_try(all) == find_try(all.skip(i as int)),
        decreases v.len() - i,
    {
        assert(all.skip(i as int)[0] == v@[i as int]@);
        assert(all.skip(i as int).skip(1) =~= all.skip(i + 1));
        if let Some(b) = find_try_in(&v[i]) {
            return Some(b);
        }
        i += 1;
    }
    None
}

fn find_try_in(s: &Statement) -> (r: Option<&Vec<Statement>>)
    ensures
        match r {
            Some(b) => try_in(s@) == Some(model::stmts(b@)),
            None => try_in(s@) is None,
        },
    decreases s, 0nat,
{
    match s {
        Statement::TryCatch { try_body, .. } => Some(try_body),
        Statement::If { then_body, else_body, .. } => match find_generator_try(then_body) {
            Some(b) => Some(b),
            None => find_generator_try(else_body),
        },
        _ => None,
    }
}

fn find_label_test(e: &Expression) -> (r: Option<(&Expression, i32)>)
    ensures
        match r {
            Some(c) => label_test(e@) == Some((c.0@, c.1)),
            None => label_test(e@) is None,
        },
{
    match e {
        Expression::Binary { op: BinaryOp::StrictEq, left, right } => {
            if let Some(n) = find_int(left) {
                if is_variable(right) {
                    return Some((&**right, n));
                }
            }
            if let Some(n) = find_int(right) {
                if is_variable(left) {
                    return Some((&**left, n));
                }
            }
            None
        },
        _ => None,
    }
}

fn is_on_other(x: &Statement, label: &Expression) -> (r: bool)
    ensures
        r == on_other(x@, label@),
{
    match x {
        Statement::If { condition, .. } => match find_label_test(condition) {
            Some(c) => !c.0.same(label),
            None => false,
        },
        _ => false,
    }
}

fn find_dispatch_nested(v: &Vec<Statement>) -> (r: Option<&Statement>)
    ensures
        match r {
            Some(x) => dispatch_nested(model::stmts(v@)) == Some(x@),
            None => dispatch_nested(model::stmts(v@)) is None,
        },
    decreases v, 1nat,
{
    match find_dispatch_guarded(v) {
        Some(x) => Some(x),
        None => find_dispatch_here(v),
    }
}

fn find_dispatch_guarded(v: &Vec<Statement>) -> (r: Option<&Statement>)
    ensures
        match r {
            Some(x) => dispatch_guarded(model::stmts(v@)) == Some(x@),
            None => dispatch_guarded(model::stmts(v@)) is None,
        },
    decreases v, 0nat,
{
    let ghost all = model::stmts(v@);
    let mut i: usize = 0;
    assert(all.skip(0) =~= all);
    while i < v.len()
        invariant
            i <= v.len(),
            all == model::stmts(v@),
            dispatch_guarded(all) == dispatch_guarded(all.skip(i as int)),
        decreases v.len() - i,
    {
        assert(all.skip(i as int)[0] == v@[i as int]@);
        assert(all.skip(i as int).skip(1) =~= all.skip(i + 1));
        if let Some(x) = find_behind_guard(&v[i]) {
            return Some(x);
        }
        i += 1;
    }
    None
}

fn find_behind_guard(s: &Statement) -> (r: Option<&Statement>)
    ensures
        match r {
            Some(x) => behind_guard(s@) == Some(x@),
            None => behind_guard(s@) is None,
        },
    decreases s, 0nat,
{
    match s {
        Statement::If { condition, else_body, .. } => match find_label_test(condition) {
            Some(c) => match find_dispatch_nested(else_body) {
                Some(x) => if c.1 != 0 && is_on_other(x, c.0) {
                    Some(x)
                } else {
                    None
                },
                None => None,
            },
            None => None,
        },
        _ => None,
    }
}

fn find_dispatch_anywhere(v: &Vec<Statement>) -> (r: Option<&Statement>)
    ensures
        match r {
            Some(x) => dispatch_anywhere(model::stmts(v@)) == Some(x@),
            None => dispatch_anywhere(model::stmts(v@)) is None,
        },
    decreases v, 1nat,
{
    match find_dispatch_nested(v) {
        Some(x) => Some(x),
        None => find_dispatch_below(v),
    }
}

fn find_dispatch_below(v: &Vec<Statement>) -> (r: Option<&Statement>)
    ensures
        match r {
            Some(x) => dispatch_below(model::stmts(v@)) == Some(x@),
            None => dispatch_below(model::stmts(v@)) is None,
        },
    decreases v, 0nat,
{
    let ghost all = model::stmts(v@);
    let mut i: usize = 0;
    assert(all.skip(0) =~= all);
    while i < v.len()
        invariant
            i <= v.len(),
            all == model::stmts(v@),
            dispatch_below(all) == dispatch_below(all.skip(i as int)),
        decreases v.len() - i,
    {
        assert(all.skip(i as int)[0] == v@[i as int]@);
        assert(all.skip(i as int).skip(1) =~= all.skip(i + 1));
        if let Some(x) = find_dispatch_in(&v[i]) {
            return Some(x);
        }
        i += 1;
    }
    None
}

fn find_dispatch_in(s: &Statement) -> (r: Option<&Statement>)
    ensures
        match r {
            Some(x) => dispatch_in(s@) == Some(x@),
            None => dispatch_in(s@) is None,
        },
    decreases s, 0nat,
{
    match s {
        Statement::If { then_body, else_body, .. } => match find_dispatch_anywhere(then_body) {
            Some(x) => Some(x),
            None => find_dispatch_anywhere(else_body),
        },
        _ => None,
    }
}

fn find_label_dispatch(v: &Vec<Statement>) -> (r: Option<&Statement>)
    ensures
        match r {
            Some(x) => dispatch(model::stmts(v@)) == Some(x@),
            None => dispatch(model::stmts(v@)) is None,
        },
{
    if let Some(b) = find_generator_try(v) {
        if let Some(x) = find_dispatch_here(b) {
            return Some(x);
        }
    }
    find_dispatch_anywhere(v)
}

pub open spec fn bodies(s: Seq<&Vec<Statement>>) -> Seq<Seq<Stmt>> {
    s.map_values(|b: &Vec<Statement>| model::stmts(b@))
}

fn collect_label_cases<'a>(s: &'a Statement, out: &mut Vec<&'a Vec<Statement>>)
    ensures
        bodies(final(out)@) == bodies(old(out)@) + cases(s@),
    decreases s,
{
    let ghost first = bodies(out@);
    match s {
        Statement::If { condition, then_body, else_body } => {
            if !is_label_condition(condition) {
                assert(first + cases(s@) =~= first);
                return ;
            }
            out.push(then_body);
            let ghost one = first + seq![model::stmts(then_body@)];
            assert(bodies(out@) =~= one);
            assert(model::stmts(else_body@).len() == else_body@.len());
            if else_body.len() == 1 {
                assert(model::stmts(else_body@)[0] == else_body@[0]@);
                if is_label_dispatch_if(&else_body[0]) {
                    collect_label_cases(&else_body[0], out);
                    assert(bodies(out@) =~= first + cases(s@));
                    return ;
                }
            }
            if else_body.len() > 0 {
                out.push(else_body);
                assert(bodies(out@) =~= one + seq![model::stmts(else_body@)]);
            }
            assert(bodies(out@) =~= first + cases(s@));
        },
        _ => {
            assert(first + cases(s@) =~= first);
        },
    }
}

fn push_compared(a: &Expression, b: &Expression, out: &mut Vec<String>)
    ensures
        model::texts(final(out)@) == model::texts(old(out)@) + compared(a@, b@),
{
    let ghost first = model::texts(out@);
    if find_int(a).is_some() {
        if let Expression::Value(Value::Variable(n)) = b {
            out.push(n.clone());
        }
    }
    assert(model::texts(out@) =~= first + compared(a@, b@));
}

fn collect_state_vars(v: &Vec<Statement>) -> (r: Vec<String>)
    ensures
        model::texts(r@) == state_names(visit::stmts_visits(model::stmts(v@))),
{
    let es: Vec<&Expression> = visit::of_stmts(v);
    let ghost all = visit::seen(es@);
    let mut out: Vec<String> = Vec::new();
    let mut i: usize = 0;
    assert(model::texts(out@) =~= Seq::empty());
    while i < es.len()
        invariant
            i <= es.len(),
            all == visit::seen(es@),
            model::texts(out@) == state_names(all.take(i as int)),
        decreases es.len() - i,
    {
        assert(all.take(i + 1).drop_last() =~= all.take(i as int));
        assert(all[i as int] == es@[i as int]@);
        let ghost before = model::texts(out@);
        if let Expression::Binary { op: BinaryOp::StrictEq, left, right } = es[i] {
            push_compared(left, right, &mut out);
            push_compared(right, left, &mut out);
        }
        assert(model::texts(out@) =~= before + compared_names(all[i as int]));
        i += 1;
    }
    assert(all.take(all.len() as int) =~= all);
    out
}

fn is_first_parameter(e: &Expression) -> (r: bool)
    ensures
        r == (e@ == Expr::Value(Val::Parameter(0))),
{
    match e {
        Expression::Value(Value::Parameter(n)) => *n == 0,
        _ => false,
    }
}

fn is_resume_code(e: &Expression) -> (r: bool)
    ensures
        r == is_one_or_two(e@),
{
    match find_int(e) {
        Some(n) => n == 1 || n == 2,
        None => false,
    }
}

fn is_resume_protocol_cond(e: &Expression) -> (r: bool)
    ensures
        r == protocol_condition(e@),
{
    match e {
        Expression::Binary { op: BinaryOp::StrictEq, left, right } => (is_first_parameter(left)
            && is_resume_code(right)) || (is_first_parameter(right) && is_resume_code(left)),
        _ => false,
    }
}

fn strip_arg_protocol(v: &Vec<Statement>) -> (r: &Vec<Statement>)
    ensures
        model::stmts(r@) == stripped(model::stmts(v@)),
    decreases v,
{
    assert(model::stmts(v@).len() == v@.len());
    if v.len() == 1 {
        assert(model::stmts(v@)[0] == v@[0]@);
        if let Statement::If { condition, else_body, .. } = &v[0] {
            if is_resume_protocol_cond(condition) {
                return strip_arg_protocol(else_body);
            }
        }
    }
    v
}

fn prop_key_is(k: &PropertyKey, n: &str) -> (r: bool)
    ensures
        r == key_is(k@, n@),
{
    match k {
        PropertyKey::Ident(s) => text::same(s, n),
        PropertyKey::String(s) => text::same(s, n),
        _ => false,
    }
}

fn find_first_prop<'a>(v: &'a Vec<ObjectProperty>, n: &str) -> (r: Option<&'a Expression>)
    ensures
        match r {
            Some(e) => first_prop(model::props(v@), n@) == Some(e@),
            None => first_prop(model::props(v@), n@) is None,
        },
{
    let ghost all = model::props(v@);
    let mut i: usize = 0;
    assert(all.skip(0) =~= all);
    while i < v.len()
        invariant
            i <= v.len(),
            all == model::props(v@),
            first_prop(all, n@) == first_prop(all.skip(i as int), n@),
        decreases v.len() - i,
    {
        assert(all.skip(i as int)[0] == v@[i as int]@);
        assert(all.skip(i as int).skip(1) =~= all.skip(i + 1));
        if prop_key_is(&v[i].key, n) {
            return Some(&v[i].value);
        }
        i += 1;
    }
    None
}

fn find_last_prop<'a>(v: &'a Vec<ObjectProperty>, n: &str) -> (r: Option<&'a Expression>)
    ensures
        match r {
            Some(e) => last_prop(model::props(v@), n@) == Some(e@),
            None => last_prop(model::props(v@), n@) is None,
        },
{
    let ghost all = model::props(v@);
    let mut i: usize = v.len();
    assert(all.take(all.len() as int) =~= all);
    while i > 0
        invariant
            i <= v.len(),
            all == model::props(v@),
            last_prop(all, n@) == last_prop(all.take(i as int), n@),
        decreases i,
    {
        assert(all.take(i as int).drop_last() =~= all.take(i - 1));
        assert(all[i - 1] == v@[i - 1]@);
        if prop_key_is(&v[i - 1].key, n) {
            return Some(&v[i - 1].value);
        }
        i -= 1;
    }
    None
}

fn is_truthy(e: &Expression) -> (r: bool)
    ensures
        r == truthy(e@),
{
    match e {
        Expression::Value(Value::Constant(Constant::Bool(b))) => *b,
        Expression::Value(Value::Constant(Constant::Integer(n))) => *n != 0,
        _ => false,
    }
}

fn parse_result_object(e: &Expression) -> (r: Option<(&Expression, bool)>)
    ensures
        match r {
            Some(x) => result_object(e@) == Some((x.0@, x.1)),
            None => result_object(e@) is None,
        },
{
    match e {
        Expression::Object { properties } => match (
            find_last_prop(properties, "value"),
            find_last_prop(properties, "done"),
        ) {
            (Some(v), Some(d)) => Some((v, is_truthy(d))),
            _ => None,
        },
        _ => None,
    }
}

fn is_named(e: &Expression, n: &str) -> (r: bool)
    ensures
        r == (e@ == variable(n@)),
{
    match e {
        Expression::Value(Value::Variable(m)) => text::same(m, n),
        _ => false,
    }
}

fn fills_value(t: &AssignTarget, n: &str) -> (r: bool)
    ensures
        r == value_slot(t@, n@),
{
    match t {
        AssignTarget::Index { object, key } => is_named(object, n) && match find_int(key) {
            Some(k) => k == 0,
            None => false,
        },
        AssignTarget::Member { object, property } => is_named(object, n) && text::same(
            property,
            "value",
        ),
        _ => false,
    }
}

fn returns_named(s: &Statement, n: &str) -> (r: bool)
    ensures
        r == (s@ == Stmt::Return(Some(variable(n@)))),
{
    proof {
        reveal_with_fuel(Expression::view, 2);
    }
    match s {
        Statement::Return(Some(e)) => is_named(e, n),
        _ => false,
    }
}

fn parse_filled<'a>(s: &Statement, f: &'a Statement, t: &Statement) -> (r: Option<
    (&'a Expression, bool),
>)
    ensures
        match r {
            Some(x) => return_filled(s@, f@, t@) == Some((x.0@, x.1)),
            None => return_filled(s@, f@, t@) is None,
        },
{
    proof {
        reveal_with_fuel(Expression::view, 2);
        reveal_with_fuel(AssignTarget::view, 2);
    }
    match (s, f) {
        (
            Statement::Assign {
                target: AssignTarget::Variable(n),
                value: Expression::Object { properties },
            },
            Statement::Assign { target, value },
        ) => {
            if returns_named(t, n) && fills_value(target, n) {
                match find_first_prop(properties, "done") {
                    Some(d) => Some((value, is_truthy(d))),
                    None => None,
                }
            } else {
                None
            }
        },
        _ => None,
    }
}

fn parse_result_return(v: &Vec<Statement>, i: usize) -> (r: Option<(&Expression, bool, usize)>)
    requires
        i < v.len(),
    ensures
        match r {
            Some(x) => result_return(model::stmts(v@), i as int) == Some((x.0@, x.1, x.2 as int))
                && i + x.2 <= v.len(),
            None => result_return(model::stmts(v@), i as int) is None,
        },
{
    let ghost all = model::stmts(v@);
    assert(all.len() == v@.len());
    assert(all[i as int] == v@[i as int]@);
    if let Statement::Return(Some(e)) = &v[i] {
        if let Some(x) = parse_result_object(e) {
            return Some((x.0, x.1, 1));
        }
    }
    let left: usize = v.len() - i;
    if left >= 2 {
        assert(all[i + 1] == v@[i + 1]@);
        if let Some(b) = bindings::as_binding(&v[i]) {
            if returns_named(&v[i + 1], b.0) {
                if let Some(x) = parse_result_object(b.1) {
                    return Some((x.0, x.1, 2));
                }
            }
        }
    }
    if left >= 3 {
        assert(all[i + 1] == v@[i + 1]@);
        assert(all[i + 2] == v@[i + 2]@);
        if let Some(x) = parse_filled(&v[i], &v[i + 1], &v[i + 2]) {
            return Some((x.0, x.1, 3));
        }
    }
    None
}

fn is_undefined(e: &Expression) -> (r: bool)
    ensures
        r == undefined(e@),
{
    match e {
        Expression::Value(Value::Constant(Constant::Undefined)) => true,
        _ => false,
    }
}

fn is_bookkeeping(s: &Statement, vars: &Vec<String>) -> (r: bool)
    ensures
        r == bookkeeping(s@, model::texts(vars@)),
{
    match s {
        Statement::Assign { target: AssignTarget::Variable(n), value } => {
            if dict::contains_name(vars, n) || is_undefined(value) {
                return true;
            }
            match value {
                Expression::Value(Value::Variable(m)) => dict::contains_name(vars, m),
                _ => false,
            }
        },
        _ => false,
    }
}

fn reconstruct_exit_body(v: &Vec<Statement>, vars: &Vec<String>) -> (r: Option<Vec<Statement>>)
    ensures
        match r {
            Some(b) => exit_from(model::stmts(v@), 0, model::texts(vars@)) == Some(
                model::stmts(b@),
            ),
            None => exit_from(model::stmts(v@), 0, model::texts(vars@)) is None,
        },
{
    let ghost all = model::stmts(v@);
    let ghost names = model::texts(vars@);
    let ghost goal = exit_from(all, 0, names);
    let mut out: Vec<Statement> = Vec::new();
    let mut i: usize = 0;
    assert(model::stmts(out@) =~= Seq::empty());
    proof {
        lemma_prefixed_none(goal);
    }
    while i < v.len()
        invariant
            i <= v.len(),
            all == model::stmts(v@),
            all.len() == v@.len(),
            names == model::texts(vars@),
            goal == exit_from(all, 0, names),
            goal == prefixed(model::stmts(out@), exit_from(all, i as int, names)),
        decreases v.len() - i,
    {
        assert(all[i as int] == v@[i as int]@);
        let ghost out0 = model::stmts(out@);
        if let Statement::Throw(_) = &v[i] {
            if i + 1 != v.len() {
                return None;
            }
            out.push(v[i].clone());
            assert(model::stmts(out@) =~= out0 + seq![all[i as int]]);
            return Some(out);
        }
        if let Some(x) = parse_result_return(v, i) {
            if !x.1 || i + x.2 != v.len() {
                return None;
            }
            let s = if is_undefined(x.0) {
                Statement::Return(None)
            } else {
                Statement::Return(Some(x.0.clone()))
            };
            let ghost y = s@;
            out.push(s);
            assert(model::stmts(out@) =~= out0 + seq![y]);
            return Some(out);
        }
        if !is_bookkeeping(&v[i], vars) {
            out.push(v[i].clone());
            assert(model::stmts(out@) =~= out0 + seq![all[i as int]]);
            proof {
                lemma_prefixed(out0, seq![all[i as int]], exit_from(all, i + 1, names));
            }
        }
        i += 1;
    }
    None
}

proof fn lemma_prefixed_none(o: Option<Seq<Stmt>>)
    ensures
        o == prefixed(Seq::empty(), o),
{
    if let Some(b) = o {
        assert(Seq::<Stmt>::empty() + b =~= b);
    }
}

proof fn lemma_prefixed(a: Seq<Stmt>, b: Seq<Stmt>, o: Option<Seq<Stmt>>)
    ensures
        prefixed(a, prefixed(b, o)) == prefixed(a + b, o),
{
    if let Some(c) = o {
        assert(a + (b + c) =~= (a + b) + c);
    }
}

proof fn lemma_before_none(o: Option<Suspend>)
    ensures
        o == before(Seq::empty(), o),
{
    if let Some(x) = o {
        assert(Seq::<Stmt>::empty() + x.pre =~= x.pre);
    }
}

proof fn lemma_before(a: Seq<Stmt>, b: Seq<Stmt>, o: Option<Suspend>)
    ensures
        before(a, before(b, o)) == before(a + b, o),
{
    if let Some(x) = o {
        assert(a + (b + x.pre) =~= (a + b) + x.pre);
    }
}

/// What a case does before its suspend point, the value there and whether it is the last.
struct ParsedSuspend {
    pre: Vec<Statement>,
    value: Expression,
    done: bool,
}

impl ParsedSuspend {
    spec fn view(&self) -> Suspend {
        Suspend { pre: model::stmts(self.pre@), value: self.value@, done: self.done }
    }
}

spec fn opt_suspend(o: Option<ParsedSuspend>) -> Option<Suspend> {
    match o {
        Some(x) => Some(x@),
        None => None,
    }
}

fn push_all(out: &mut Vec<Statement>, v: &Vec<Statement>)
    ensures
        model::stmts(final(out)@) == model::stmts(old(out)@) + model::stmts(v@),
{
    let ghost all = model::stmts(v@);
    let ghost first = model::stmts(out@);
    let mut i: usize = 0;
    assert(first + all.take(0) =~= first);
    while i < v.len()
        invariant
            i <= v.len(),
            all == model::stmts(v@),
            model::stmts(out@) == first + all.take(i as int),
        decreases v.len() - i,
    {
        let ghost before = model::stmts(out@);
        assert(all[i as int] == v@[i as int]@);
        out.push(v[i].clone());
        assert(model::stmts(out@) =~= before.push(all[i as int]));
        assert(model::stmts(out@) =~= first + all.take(i + 1));
        i += 1;
    }
    assert(all.take(all.len() as int) =~= all);
}

fn put_before(mut pre: Vec<Statement>, o: Option<ParsedSuspend>) -> (r: Option<ParsedSuspend>)
    ensures
        opt_suspend(r) == before(model::stmts(pre@), opt_suspend(o)),
{
    match o {
        Some(x) => {
            push_all(&mut pre, &x.pre);
            Some(ParsedSuspend { pre, value: x.value, done: x.done })
        },
        None => None,
    }
}

fn make_guard(c: Expression, body: Vec<Statement>) -> (r: Vec<Statement>)
    ensures
        model::stmts(r@) == seq![guard(c@, model::stmts(body@))],
{
    let none: Vec<Statement> = Vec::new();
    assert(model::stmts(none@) =~= Seq::empty());
    let s = Statement::If { condition: c, then_body: body, else_body: none };
    let ghost y = s@;
    let mut out: Vec<Statement> = Vec::new();
    out.push(s);
    assert(model::stmts(out@) =~= seq![y]);
    out
}

fn parse_branch(s: &Statement, last: bool, vars: &Vec<String>) -> (r: Option<
    Option<ParsedSuspend>,
>)
    ensures
        match r {
            Some(x) => branch_suspend(s@, last, model::texts(vars@)) == Some(opt_suspend(x)),
            None => branch_suspend(s@, last, model::texts(vars@)) is None,
        },
    decreases s, 0int,
{
    match s {
        Statement::If { condition, then_body, else_body } => {
            assert(model::stmts(else_body@).len() == else_body@.len());
            if last && else_body.len() > 0 {
                if let Some(x) = reconstruct_exit_body(then_body, vars) {
                    let g = make_guard(condition.clone(), x);
                    let rest = collect_pre_and_yield(else_body, 0, vars);
                    return Some(put_before(g, rest));
                }
                if let Some(x) = reconstruct_exit_body(else_body, vars) {
                    let c = Expression::Unary {
                        op: UnaryOp::Not,
                        operand: Box::new(condition.clone()),
                    };
                    let g = make_guard(c, x);
                    let rest = collect_pre_and_yield(then_body, 0, vars);
                    return Some(put_before(g, rest));
                }
            }
            None
        },
        _ => None,
    }
}

fn collect_pre_and_yield(v: &Vec<Statement>, from: usize, vars: &Vec<String>) -> (r: Option<
    ParsedSuspend,
>)
    requires
        from <= v@.len(),
    ensures
        opt_suspend(r) == suspend_from(model::stmts(v@), from as int, model::texts(vars@)),
    decreases v, v@.len() - from,
{
    let ghost all = model::stmts(v@);
    let ghost names = model::texts(vars@);
    let ghost goal = suspend_from(all, from as int, names);
    let mut pre: Vec<Statement> = Vec::new();
    let mut i: usize = from;
    assert(model::stmts(pre@) =~= Seq::empty());
    proof {
        lemma_before_none(goal);
    }
    while i < v.len()
        invariant
            from <= i <= v.len(),
            all == model::stmts(v@),
            all.len() == v@.len(),
            names == model::texts(vars@),
            goal == suspend_from(all, from as int, names),
            goal == before(model::stmts(pre@), suspend_from(all, i as int, names)),
        decreases v.len() - i,
    {
        assert(all[i as int] == v@[i as int]@);
        let ghost pre0 = model::stmts(pre@);
        if let Some(x) = parse_result_return(v, i) {
            if i + x.2 != v.len() {
                return None;
            }
            let r = ParsedSuspend { pre, value: x.0.clone(), done: x.1 };
            assert(pre0 + Seq::<Stmt>::empty() =~= pre0);
            return Some(r);
        }
        if let Some(x) = parse_branch(&v[i], i + 1 == v.len(), vars) {
            return put_before(pre, x);
        }
        if !is_bookkeeping(&v[i], vars) {
            pre.push(v[i].clone());
            assert(model::stmts(pre@) =~= pre0 + seq![all[i as int]]);
            proof {
                lemma_before(pre0, seq![all[i as int]], suspend_from(all, i + 1, names));
            }
        }
        i += 1;
    }
    None
}

/// A case: what the value that resumes it is bound to, and the suspend point it runs to.
struct ParsedCase {
    resume: Option<AssignTarget>,
    suspend: ParsedSuspend,
}

spec fn opt_target(o: Option<AssignTarget>) -> Option<Target> {
    match o {
        Some(t) => Some(t@),
        None => None,
    }
}

impl ParsedCase {
    spec fn view(&self) -> Case {
        Case { resume: opt_target(self.resume), suspend: self.suspend@ }
    }
}

fn find_resume_binding(v: &Vec<Statement>) -> (r: Option<AssignTarget>)
    ensures
        opt_target(r) == resume_binding(model::stmts(v@)),
{
    proof {
        reveal_with_fuel(Expression::view, 2);
    }
    assert(model::stmts(v@).len() == v@.len());
    if v.len() > 0 {
        assert(model::stmts(v@)[0] == v@[0]@);
        if let Statement::Assign { target, value } = &v[0] {
            if let Expression::Value(Value::Parameter(n)) = value {
                if *n == 1 {
                    return Some(target.clone());
                }
            }
        }
    }
    None
}

fn parse_case(v: &Vec<Statement>, vars: &Vec<String>) -> (r: Option<ParsedCase>)
    ensures
        match r {
            Some(c) => parsed(model::stmts(v@), model::texts(vars@)) == Some(c@),
            None => parsed(model::stmts(v@), model::texts(vars@)) is None,
        },
{
    let s = strip_arg_protocol(v);
    let resume = find_resume_binding(s);
    let from: usize = if resume.is_some() {
        1
    } else {
        0
    };
    assert(model::stmts(s@).len() == s@.len());
    match collect_pre_and_yield(s, from, vars) {
        Some(suspend) => Some(ParsedCase { resume, suspend }),
        None => None,
    }
}

fn leaves(s: &Statement) -> (r: bool)
    ensures
        r == only_exits(s@),
    decreases s,
{
    match s {
        Statement::Throw(_) => true,
        Statement::Return(_) => true,
        Statement::Comment(_) => true,
        Statement::If { then_body, else_body, .. } => all_leave(then_body) && all_leave(else_body),
        Statement::Block(body) => all_leave(body),
        _ => false,
    }
}

fn all_leave(v: &Vec<Statement>) -> (r: bool)
    ensures
        r == all_only_exit(model::stmts(v@)),
    decreases v,
{
    let ghost all = model::stmts(v@);
    let mut i: usize = 0;
    while i < v.len()
        invariant
            i <= v.len(),
            all == model::stmts(v@),
            forall|k: int| 0 <= k < i ==> only_exits(#[trigger] all[k]),
        decreases v.len() - i,
    {
        assert(all[i as int] == v@[i as int]@);
        if !leaves(&v[i]) {
            assert(!only_exits(all[i as int]));
            return false;
        }
        i += 1;
    }
    true
}

fn is_catch_label(v: &Vec<Statement>) -> (r: bool)
    ensures
        r == catch_label(model::stmts(v@)),
{
    let s = strip_arg_protocol(v);
    assert(model::stmts(s@).len() == s@.len());
    s.len() > 0 && all_leave(s)
}

fn has_work(c: &ParsedCase) -> (r: bool)
    ensures
        r == holds_work(c@),
{
    assert(model::stmts(c.suspend.pre@).len() == c.suspend.pre@.len());
    if c.suspend.pre.len() > 0 {
        return true;
    }
    match &c.suspend.value {
        Expression::Value(Value::Constant(Constant::Undefined)) => false,
        Expression::Value(Value::Constant(Constant::Null)) => false,
        _ => true,
    }
}

spec fn case_views(s: Seq<ParsedCase>) -> Seq<Case> {
    s.map_values(|c: ParsedCase| c@)
}

spec fn opt_case(o: Option<ParsedCase>) -> Option<Case> {
    match o {
        Some(c) => Some(c@),
        None => None,
    }
}

fn gather(v: &Vec<&Vec<Statement>>, vars: &Vec<String>) -> (r: Option<
    (Vec<ParsedCase>, Option<ParsedCase>),
>)
    ensures
        match r {
            Some(m) => gathered(bodies(v@), model::texts(vars@)) == Some(
                (Machine { suspends: case_views(m.0@), terminal: opt_case(m.1) }),
            ),
            None => gathered(bodies(v@), model::texts(vars@)) is None,
        },
{
    let ghost all = bodies(v@);
    let ghost names = model::texts(vars@);
    let mut suspends: Vec<ParsedCase> = Vec::new();
    let mut terminal: Option<ParsedCase> = None;
    let mut i: usize = 0;
    assert(case_views(suspends@) =~= Seq::empty());
    while i < v.len()
        invariant
            i <= v.len(),
            all == bodies(v@),
            names == model::texts(vars@),
            gathered(all.take(i as int), names) == Some(
                (Machine { suspends: case_views(suspends@), terminal: opt_case(terminal) }),
            ),
        decreases v.len() - i,
    {
        assert(all.take(i + 1).drop_last() =~= all.take(i as int));
        assert(all[i as int] == model::stmts(v@[i as int]@));
        match parse_case(v[i], vars) {
            Some(c) => {
                if !c.suspend.done {
                    let ghost before = case_views(suspends@);
                    let ghost y = c@;
                    suspends.push(c);
                    assert(case_views(suspends@) =~= before.push(y));
                } else {
                    let held: bool = match &terminal {
                        Some(t) => has_work(t),
                        None => false,
                    };
                    if held {
                        if has_work(&c) {
                            proof {
                                lemma_not_gathered(all, names, i + 1);
                            }
                            return None;
                        }
                    } else {
                        terminal = Some(c);
                    }
                }
            },
            None => {
                if !is_catch_label(v[i]) {
                    proof {
                        lemma_not_gathered(all, names, i + 1);
                    }
                    return None;
                }
            },
        }
        i += 1;
    }
    assert(all.take(all.len() as int) =~= all);
    Some((suspends, terminal))
}

proof fn lemma_not_gathered(s: Seq<Seq<Stmt>>, vars: Seq<Seq<char>>, i: int)
    requires
        0 <= i <= s.len(),
        gathered(s.take(i), vars) is None,
    ensures
        gathered(s, vars) is None,
    decreases s.len() - i,
{
    if i < s.len() {
        assert(s.take(i + 1).drop_last() =~= s.take(i));
        lemma_not_gathered(s, vars, i + 1);
    } else {
        assert(s.take(i) =~= s);
    }
}

fn push_yield(out: &mut Vec<Statement>, value: &Expression, target: &Option<AssignTarget>)
    ensures
        model::stmts(final(out)@) == model::stmts(old(out)@) + seq![
            yield_stmt(value@, opt_target(*target)),
        ],
{
    let ghost first = model::stmts(out@);
    let e = Expression::Yield { value: Box::new(value.clone()), delegate: false };
    let s = match target {
        Some(t) => Statement::Assign { target: t.clone(), value: e },
        None => Statement::Expr(e),
    };
    let ghost y = s@;
    out.push(s);
    assert(model::stmts(out@) =~= first + seq![y]);
}

fn emit_yield_chain(suspends: &Vec<ParsedCase>, terminal: &ParsedCase) -> (r: Vec<Statement>)
    requires
        suspends@.len() > 0,
    ensures
        model::stmts(r@) == emitted(case_views(suspends@), terminal@),
{
    let ghost all = case_views(suspends@);
    let mut out: Vec<Statement> = Vec::new();
    let mut i: usize = 0;
    assert(model::stmts(out@) =~= Seq::empty());
    while i < suspends.len()
        invariant
            i <= suspends.len(),
            all == case_views(suspends@),
            model::stmts(out@) == chain(all.take(i as int)),
        decreases suspends.len() - i,
    {
        assert(all.take(i + 1).drop_last() =~= all.take(i as int));
        assert(all[i as int] == suspends@[i as int]@);
        if i > 0 {
            assert(all[i - 1] == suspends@[i - 1]@);
            push_yield(&mut out, &suspends[i - 1].suspend.value, &suspends[i].resume);
        } else {
            assert(model::stmts(out@) + all[0].suspend.pre =~= all[0].suspend.pre);
        }
        push_all(&mut out, &suspends[i].suspend.pre);
        i += 1;
    }
    assert(all.take(all.len() as int) =~= all);
    assert(all.last() == suspends@[suspends@.len() - 1]@);
    push_yield(&mut out, &suspends[suspends.len() - 1].suspend.value, &terminal.resume);
    push_all(&mut out, &terminal.suspend.pre);
    if !is_undefined(&terminal.suspend.value) {
        let ghost before = model::stmts(out@);
        out.push(Statement::Return(Some(terminal.suspend.value.clone())));
        assert(model::stmts(out@) =~= before.push(
            Stmt::Return(Some(terminal.suspend.value@)),
        ));
    }
    out
}

/// Recovers the body of a generator from its state machine, if it is understood as a whole.
pub fn try_reconstruct_generator_v98(body: &Vec<Statement>) -> (r: Option<Vec<Statement>>)
    ensures
        match r {
            Some(b) => generator(model::stmts(body@)) == Some(model::stmts(b@)),
            None => generator(model::stmts(body@)) is None,
        },
{
    match find_label_dispatch(body) {
        Some(d) => {
            let mut all: Vec<&Vec<Statement>> = Vec::new();
            collect_label_cases(d, &mut all);
            assert(bodies(all@) =~= cases(d@));
            assert(bodies(all@).len() == all@.len());
            if all.len() < 2 {
                return None;
            }
            let vars = collect_state_vars(body);
            match gather(&all, &vars) {
                Some((suspends, Some(t))) => {
                    assert(case_views(suspends@).len() == suspends@.len());
                    if suspends.len() > 0 {
                        Some(emit_yield_chain(&suspends, &t))
                    } else {
                        None
                    }
                },
                _ => None,
            }
        },
        None => None,
    }
}

/// The body of the generator that a state machine is, or the body as it is.
pub fn reconstruct_generator_v98(body: Vec<Statement>) -> (r: Vec<Statement>)
    ensures
        model::stmts(r@) == match generator(model::stmts(body@)) {
            Some(b) => b,
            None => model::stmts(body@),
        },
{
    match try_reconstruct_generator_v98(&body) {
        Some(b) => b,
        None => body,
    }
}

/// No case is lost: a case that suspends is kept, one that ends the generator after some work is
/// its end, and one that is not understood only leaves.
pub proof fn lemma_no_case_is_lost(s: Seq<Seq<Stmt>>, vars: Seq<Seq<char>>, i: int)
    requires
        0 <= i < s.len(),
        gathered(s, vars) is Some,
    ensures
        match parsed(s[i], vars) {
            Some(c) => if c.suspend.done {
                holds_work(c) ==> gathered(s, vars)->0.terminal == Some(c)
            } else {
                gathered(s, vars)->0.suspends.contains(c)
            },
            None => catch_label(s[i]),
        },
    decreases s.len(),
{
    let before = gathered(s.drop_last(), vars)->0;
    let after = gathered(s, vars)->0;
    if i == s.len() - 1 {
        if let Some(c) = parsed(s[i], vars) {
            if !c.suspend.done {
                assert(after.suspends[before.suspends.len() as int] == c);
            }
        }
    } else {
        lemma_no_case_is_lost(s.drop_last(), vars, i);
        if let Some(c) = parsed(s[i], vars) {
            if !c.suspend.done {
                let j = choose|j: int| 0 <= j < before.suspends.len() && before.suspends[j] == c;
                assert(after.suspends[j] == c);
            }
        }
    }
}

/// The code of a suspending case is kept.
proof fn lemma_chain_keeps(s: Seq<Case>, i: int, k: int)
    requires
        0 <= i < s.len(),
        0 <= k < s[i].suspend.pre.len(),
    ensures
        chain(s).contains(s[i].suspend.pre[k]),
    decreases s.len(),
{
    let x = s[i].suspend.pre[k];
    let all = chain(s);
    if s.len() == 1 {
        assert(all[k] == x);
    } else {
        let rest = s.drop_last();
        let head = chain(rest) + seq![yield_stmt(rest.last().suspend.value, s.last().resume)];
        if i == s.len() - 1 {
            assert(all[head.len() + k] == x);
        } else {
            lemma_chain_keeps(rest, i, k);
            let j = choose|j: int| 0 <= j < chain(rest).len() && chain(rest)[j] == x;
            assert(all[j] == x);
        }
    }
}

/// No code is lost: what each suspending case and the last one do before their suspend points is
/// in the generator.
pub proof fn lemma_code_is_kept(suspends: Seq<Case>, t: Case, i: int, k: int)
    requires
        suspends.len() > 0,
        0 <= i <= suspends.len(),
        0 <= k < (if i < suspends.len() {
            suspends[i]
        } else {
            t
        }).suspend.pre.len(),
    ensures
        emitted(suspends, t).contains(
            (if i < suspends.len() {
                suspends[i]
            } else {
                t
            }).suspend.pre[k],
        ),
{
    let out = emitted(suspends, t);
    let body = chain(suspends) + seq![yield_stmt(suspends.last().suspend.value, t.resume)];
    if i < suspends.len() {
        lemma_chain_keeps(suspends, i, k);
        let x = suspends[i].suspend.pre[k];
        let j = choose|j: int| 0 <= j < chain(suspends).len() && chain(suspends)[j] == x;
        assert(out[j] == x);
    } else {
        assert(out[body.len() + k] == t.suspend.pre[k]);
    }
}

/// A recovered generator suspends.
pub proof fn lemma_generator_yields(suspends: Seq<Case>, t: Case)
    requires
        suspends.len() > 0,
    ensures
        emitted(suspends, t).contains(yield_stmt(suspends.last().suspend.value, t.resume)),
{
    let y = yield_stmt(suspends.last().suspend.value, t.resume);
    assert(emitted(suspends, t)[chain(suspends).len() as int] == y);
}

} // verus!
