//! Recovers generators and asynchronous functions.

pub mod laws;
pub mod state_machine_v98;
pub mod suspend_laws;

use crate::ir::cloning::{clone_opt_expr, clone_opt_stmt, clone_opt_text};
use crate::ir::model;
use crate::ir::model::{Const, Expr, Key, Stmt, Val};
use crate::ir::nested;
use crate::ir::{Constant, Expression, PropertyKey, Statement, Value};
use crate::text;
use vstd::prelude::*;

verus! {

/// Whether a statement marks a suspend point.
pub open spec fn yield_marker(s: Stmt) -> bool {
    match s {
        Stmt::Comment(c) => text::has_prefix(c, "__yield_point__"@),
        _ => false,
    }
}

/// Whether a statement marks a step of a generator.
pub open spec fn marker(s: Stmt) -> bool {
    yield_marker(s) || match s {
        Stmt::Comment(c) => c == "StartGenerator"@ || c == "SaveGenerator"@ || c
            == "ResumeGenerator"@ || c == "CompleteGenerator"@,
        _ => false,
    }
}

pub open spec fn any_marker(s: Seq<Stmt>) -> bool
    decreases s.len(),
{
    s.len() > 0 && (any_marker(s.drop_last()) || marker(s.last()))
}

/// Whether a list, or one nested in it, has a marker.
pub open spec fn generator_patterns(s: Seq<Stmt>) -> bool {
    any_marker(nested::flat(s))
}

/// The value that a return hands out.
pub open spec fn returned(s: Stmt) -> Option<Expr> {
    match s {
        Stmt::Return(Some(e)) => Some(e),
        Stmt::Return(None) => Some(Expr::Value(Val::Constant(Const::Undefined))),
        _ => None,
    }
}

/// Whether an expression is the value that a generator is resumed with.
pub open spec fn resume_call(e: Expr) -> bool {
    match e {
        Expr::Call { callee, .. } => match *callee {
            Expr::Member { property: Key::Ident(n), .. } => n == "resume"@,
            _ => false,
        },
        _ => false,
    }
}

/// What a function does with a value at a suspend point.
pub open spec fn suspension(a: bool, e: Expr) -> Expr {
    if a {
        Expr::Await(Box::new(e))
    } else {
        Expr::Yield { value: Box::new(e), delegate: false }
    }
}

/// A suspend point at a position: the value handed out, and what the value that it is resumed with
/// is assigned to, where the next statement does so.
pub open spec fn suspend_point(a: bool, s: Seq<Stmt>, i: int) -> Option<(Stmt, int)> {
    if yield_marker(s[i]) && i + 1 < s.len() {
        match returned(s[i + 1]) {
            Some(e) => if i + 2 < s.len() {
                match s[i + 2] {
                    Stmt::Assign { target, value } => if resume_call(value) {
                        Some((Stmt::Assign { target, value: suspension(a, e) }, 3int))
                    } else {
                        Some((Stmt::Expr(suspension(a, e)), 2int))
                    },
                    _ => Some((Stmt::Expr(suspension(a, e)), 2int)),
                }
            } else {
                Some((Stmt::Expr(suspension(a, e)), 2int))
            },
            None => None,
        }
    } else {
        None
    }
}

pub open spec fn suspended_from(a: bool, s: Seq<Stmt>, i: int) -> Seq<Stmt>
    decreases s.len() - i,
{
    if i < 0 || i >= s.len() {
        Seq::empty()
    } else {
        match suspend_point(a, s, i) {
            Some(x) => seq![x.0] + suspended_from(a, s, i + x.1),
            None => seq![s[i]] + suspended_from(a, s, i + 1),
        }
    }
}

/// The list with its suspend points recovered, nested lists included.
pub open spec fn suspended(a: bool, s: Seq<Stmt>) -> Seq<Stmt>
    decreases s, 2nat,
{
    suspended_from(a, suspended_list(a, s), 0)
}

pub open spec fn suspended_list(a: bool, s: Seq<Stmt>) -> Seq<Stmt>
    decreases s, 1nat,
{
    Seq::new(
        s.len(),
        |i: int|
            if 0 <= i < s.len() {
                suspended_nested(a, s[i])
            } else {
                arbitrary()
            },
    )
}

/// The statement with the suspend points in its nested lists recovered.
pub open spec fn suspended_nested(a: bool, s: Stmt) -> Stmt
    decreases s, 0nat,
{
    match s {
        Stmt::If { condition, then_body, else_body } => Stmt::If {
            condition,
            then_body: suspended(a, then_body),
            else_body: suspended(a, else_body),
        },
        Stmt::While { condition, body } => Stmt::While {
            condition,
            body: suspended(a, body),
        },
        Stmt::DoWhile { body, condition } => Stmt::DoWhile {
            body: suspended(a, body),
            condition,
        },
        Stmt::For { init, condition, update, body } => Stmt::For {
            init,
            condition,
            update,
            body: suspended(a, body),
        },
        Stmt::ForIn { variable, object, body } => Stmt::ForIn {
            variable,
            object,
            body: suspended(a, body),
        },
        Stmt::ForOf { variable, iterable, body } => Stmt::ForOf {
            variable,
            iterable,
            body: suspended(a, body),
        },
        Stmt::Block(body) => Stmt::Block(suspended(a, body)),
        Stmt::TryCatch { try_body, catch_param, catch_body, finally_body } => Stmt::TryCatch {
            try_body: suspended(a, try_body),
            catch_param,
            catch_body: suspended(a, catch_body),
            finally_body: suspended(a, finally_body),
        },
        Stmt::Switch { discriminant, cases, default } => Stmt::Switch {
            discriminant,
            cases: suspended_nested_cases(a, cases),
            default: suspended_nested_default(a, default),
        },
        _ => s,
    }
}

pub open spec fn suspended_nested_case(a: bool, c: (Expr, Seq<Stmt>)) -> (Expr, Seq<Stmt>)
    decreases c, 0nat,
{
    (c.0, suspended(a, c.1))
}

pub open spec fn suspended_nested_cases(a: bool, s: Seq<(Expr, Seq<Stmt>)>) -> Seq<(Expr, Seq<Stmt>)>
    decreases s, 0nat,
{
    Seq::new(
        s.len(),
        |i: int|
            if 0 <= i < s.len() {
                suspended_nested_case(a, s[i])
            } else {
                arbitrary()
            },
    )
}

pub open spec fn suspended_nested_default(a: bool, d: Option<Seq<Stmt>>) -> Option<Seq<Stmt>>
    decreases d, 0nat,
{
    match d {
        Some(b) => Some(suspended(a, b)),
        None => None,
    }
}

/// The list without markers, nested lists included.
pub open spec fn uncommented(s: Seq<Stmt>) -> Seq<Stmt>
    decreases s, 1nat,
{
    if s.len() == 0 {
        s
    } else if marker(s.last()) {
        uncommented(s.drop_last())
    } else {
        uncommented(s.drop_last()).push(uncommented_nested(s.last()))
    }
}

/// The statement with the markers in its nested lists dropped.
pub open spec fn uncommented_nested(s: Stmt) -> Stmt
    decreases s, 0nat,
{
    match s {
        Stmt::If { condition, then_body, else_body } => Stmt::If {
            condition,
            then_body: uncommented(then_body),
            else_body: uncommented(else_body),
        },
        Stmt::While { condition, body } => Stmt::While {
            condition,
            body: uncommented(body),
        },
        Stmt::DoWhile { body, condition } => Stmt::DoWhile {
            body: uncommented(body),
            condition,
        },
        Stmt::For { init, condition, update, body } => Stmt::For {
            init,
            condition,
            update,
            body: uncommented(body),
        },
        Stmt::ForIn { variable, object, body } => Stmt::ForIn {
            variable,
            object,
            body: uncommented(body),
        },
        Stmt::ForOf { variable, iterable, body } => Stmt::ForOf {
            variable,
            iterable,
            body: uncommented(body),
        },
        Stmt::Block(body) => Stmt::Block(uncommented(body)),
        Stmt::TryCatch { try_body, catch_param, catch_body, finally_body } => Stmt::TryCatch {
            try_body: uncommented(try_body),
            catch_param,
            catch_body: uncommented(catch_body),
            finally_body: uncommented(finally_body),
        },
        Stmt::Switch { discriminant, cases, default } => Stmt::Switch {
            discriminant,
            cases: uncommented_nested_cases(cases),
            default: uncommented_nested_default(default),
        },
        _ => s,
    }
}

pub open spec fn uncommented_nested_case(c: (Expr, Seq<Stmt>)) -> (Expr, Seq<Stmt>)
    decreases c, 0nat,
{
    (c.0, uncommented(c.1))
}

pub open spec fn uncommented_nested_cases(s: Seq<(Expr, Seq<Stmt>)>) -> Seq<(Expr, Seq<Stmt>)>
    decreases s, 0nat,
{
    Seq::new(
        s.len(),
        |i: int|
            if 0 <= i < s.len() {
                uncommented_nested_case(s[i])
            } else {
                arbitrary()
            },
    )
}

pub open spec fn uncommented_nested_default(d: Option<Seq<Stmt>>) -> Option<Seq<Stmt>>
    decreases d, 0nat,
{
    match d {
        Some(b) => Some(uncommented(b)),
        None => None,
    }
}

fn is_yield_marker(s: &Statement) -> (r: bool)
    ensures
        r == yield_marker(s@),
{
    match s {
        Statement::Comment(c) => text::starts_with(c, "__yield_point__"),
        _ => false,
    }
}

fn is_marker(s: &Statement) -> (r: bool)
    ensures
        r == marker(s@),
{
    if is_yield_marker(s) {
        return true;
    }
    match s {
        Statement::Comment(c) => text::same(c, "StartGenerator") || text::same(c, "SaveGenerator")
            || text::same(c, "ResumeGenerator") || text::same(c, "CompleteGenerator"),
        _ => false,
    }
}

/// Whether the statements hold a marker of a generator.
pub fn has_generator_patterns(stmts: &Vec<Statement>) -> (r: bool)
    ensures
        r == generator_patterns(model::stmts(stmts@)),
{
    let v: Vec<&Statement> = nested::of_stmts(stmts);
    let ghost all = nested::seen(v@);
    let mut found: bool = false;
    let mut i: usize = 0;
    while i < v.len()
        invariant
            i <= v.len(),
            all == nested::seen(v@),
            found == any_marker(all.take(i as int)),
        decreases v.len() - i,
    {
        assert(all.take(i + 1).drop_last() =~= all.take(i as int));
        assert(all[i as int] == v@[i as int]@);
        if is_marker(v[i]) {
            found = true;
        }
        i += 1;
    }
    assert(all.take(all.len() as int) =~= all);
    found
}

fn find_returned(s: &Statement) -> (r: Option<Expression>)
    ensures
        model::opt_expr(r) == returned(s@),
{
    match s {
        Statement::Return(Some(e)) => Some(e.clone()),
        Statement::Return(None) => Some(Expression::Value(Value::Constant(Constant::Undefined))),
        _ => None,
    }
}

fn is_resume_call(e: &Expression) -> (r: bool)
    ensures
        r == resume_call(e@),
{
    proof {
        reveal_with_fuel(Expression::view, 3);
        reveal_with_fuel(PropertyKey::view, 2);
    }
    match e {
        Expression::Call { callee, .. } => match &**callee {
            Expression::Member { property: PropertyKey::Ident(n), .. } => text::same(n, "resume"),
            _ => false,
        },
        _ => false,
    }
}

fn make_suspension(a: bool, e: Expression) -> (r: Expression)
    ensures
        r@ == suspension(a, e@),
{
    if a {
        Expression::Await(Box::new(e))
    } else {
        Expression::Yield { value: Box::new(e), delegate: false }
    }
}

fn find_suspend_point(a: bool, v: &Vec<Statement>, i: usize) -> (r: Option<(Statement, usize)>)
    requires
        i < v.len(),
    ensures
        match r {
            Some(x) => suspend_point(a, model::stmts(v@), i as int) == Some((x.0@, x.1 as int))
                && 0 < x.1 && i + x.1 <= v.len(),
            None => suspend_point(a, model::stmts(v@), i as int) is None,
        },
{
    let ghost all = model::stmts(v@);
    assert(all.len() == v@.len());
    assert(all[i as int] == v@[i as int]@);
    let left: usize = v.len() - i;
    if !is_yield_marker(&v[i]) || left < 2 {
        return None;
    }
    assert(all[i + 1] == v@[i + 1]@);
    match find_returned(&v[i + 1]) {
        Some(e) => {
            if left >= 3 {
                assert(all[i + 2] == v@[i + 2]@);
                if let Statement::Assign { target, value } = &v[i + 2] {
                    if is_resume_call(value) {
                        return Some(
                            (
                                Statement::Assign {
                                    target: target.clone(),
                                    value: make_suspension(a, e),
                                },
                                3,
                            ),
                        );
                    }
                }
            }
            Some((Statement::Expr(make_suspension(a, e)), 2))
        },
        None => None,
    }
}

fn suspend_list(a: bool, v: &Vec<Statement>) -> (r: Vec<Statement>)
    ensures
        model::stmts(r@) == suspended_from(a, model::stmts(v@), 0),
{
    let ghost all = model::stmts(v@);
    let ghost goal = suspended_from(a, all, 0);
    let mut out: Vec<Statement> = Vec::new();
    let mut i: usize = 0;
    assert(model::stmts(out@) =~= Seq::empty());
    assert(goal =~= model::stmts(out@) + goal);
    while i < v.len()
        invariant
            i <= v.len(),
            all == model::stmts(v@),
            goal == model::stmts(out@) + suspended_from(a, all, i as int),
        decreases v.len() - i,
    {
        assert(all[i as int] == v@[i as int]@);
        let ghost out0 = model::stmts(out@);
        match find_suspend_point(a, v, i) {
            Some(x) => {
                let ghost y = x.0@;
                let ghost tail = suspended_from(a, all, i + x.1);
                out.push(x.0);
                assert(model::stmts(out@) =~= out0.push(y));
                assert(out0 + (seq![y] + tail) =~= out0.push(y) + tail);
                i += x.1;
            },
            None => {
                let ghost tail = suspended_from(a, all, i + 1);
                out.push(v[i].clone());
                assert(model::stmts(out@) =~= out0.push(all[i as int]));
                assert(out0 + (seq![all[i as int]] + tail) =~= out0.push(all[i as int]) + tail);
                i += 1;
            },
        }
    }
    assert(goal =~= model::stmts(out@));
    out
}

fn transform_generator_stmts(a: bool, v: &Vec<Statement>) -> (r: Vec<Statement>)
    ensures
        model::stmts(r@) == suspended(a, model::stmts(v@)),
    decreases v, 2nat,
{
    let mut inner: Vec<Statement> = Vec::new();
    let mut i: usize = 0;
    while i < v.len()
        invariant
            i <= v.len(),
            inner.len() == i,
            forall|k: int|
                0 <= k < i ==> (#[trigger] inner@[k])@ == suspended_nested(a, v@[k]@),
        decreases v.len() - i,
    {
        let x = transform_nested(a, &v[i]);
        inner.push(x);
        i += 1;
    }
    assert(model::stmts(inner@) =~= suspended_list(a, model::stmts(v@)));
    suspend_list(a, &inner)
}

fn transform_nested(a: bool, s: &Statement) -> (r: Statement)
    ensures
        r@ == suspended_nested(a, s@),
    decreases s, 0nat,
{
    match s {
        Statement::If { condition, then_body, else_body } => Statement::If {
            condition: condition.clone(),
            then_body: transform_generator_stmts(a, then_body),
            else_body: transform_generator_stmts(a, else_body),
        },
        Statement::While { condition, body } => Statement::While {
            condition: condition.clone(),
            body: transform_generator_stmts(a, body),
        },
        Statement::DoWhile { body, condition } => Statement::DoWhile {
            body: transform_generator_stmts(a, body),
            condition: condition.clone(),
        },
        Statement::For { init, condition, update, body } => Statement::For {
            init: clone_opt_stmt(init),
            condition: clone_opt_expr(condition),
            update: clone_opt_stmt(update),
            body: transform_generator_stmts(a, body),
        },
        Statement::ForIn { variable, object, body } => Statement::ForIn {
            variable: variable.clone(),
            object: object.clone(),
            body: transform_generator_stmts(a, body),
        },
        Statement::ForOf { variable, iterable, body } => Statement::ForOf {
            variable: variable.clone(),
            iterable: iterable.clone(),
            body: transform_generator_stmts(a, body),
        },
        Statement::Block(body) => Statement::Block(transform_generator_stmts(a, body)),
        Statement::TryCatch { try_body, catch_param, catch_body, finally_body } => Statement::TryCatch {
            try_body: transform_generator_stmts(a, try_body),
            catch_param: clone_opt_text(catch_param),
            catch_body: transform_generator_stmts(a, catch_body),
            finally_body: transform_generator_stmts(a, finally_body),
        },
        Statement::Switch { discriminant, cases, default } => Statement::Switch {
            discriminant: discriminant.clone(),
            cases: transform_nested_cases(a, cases),
            default: transform_nested_default(a, default),
        },
        _ => s.clone(),
    }
}

fn transform_nested_cases(a: bool, v: &Vec<(Expression, Vec<Statement>)>) -> (r: Vec<(Expression, Vec<Statement>)>)
    ensures
        model::case_arms(r@) == suspended_nested_cases(a, model::case_arms(v@)),
    decreases v, 0nat,
{
    let mut out: Vec<(Expression, Vec<Statement>)> = Vec::new();
    let mut i: usize = 0;
    while i < v.len()
        invariant
            i <= v.len(),
            out.len() == i,
            forall|k: int|
                0 <= k < i ==> model::case_arm(#[trigger] out@[k]) == suspended_nested_case(
                    a, model::case_arm(v@[k]),
                ),
        decreases v.len() - i,
    {
        out.push((v[i].0.clone(), transform_generator_stmts(a, &v[i].1)));
        i += 1;
    }
    assert(model::case_arms(out@) =~= suspended_nested_cases(a, model::case_arms(v@)));
    out
}

fn transform_nested_default(a: bool, d: &Option<Vec<Statement>>) -> (r: Option<Vec<Statement>>)
    ensures
        model::opt_stmts(r) == suspended_nested_default(a, model::opt_stmts(*d)),
    decreases d, 0nat,
{
    match d {
        Some(b) => Some(transform_generator_stmts(a, b)),
        None => None,
    }
}

fn cleanup_list(v: &Vec<Statement>) -> (r: Vec<Statement>)
    ensures
        model::stmts(r@) == uncommented(model::stmts(v@)),
    decreases v, 1nat,
{
    let ghost all = model::stmts(v@);
    let mut out: Vec<Statement> = Vec::new();
    let mut i: usize = 0;
    assert(model::stmts(out@) =~= all.take(0));
    while i < v.len()
        invariant
            i <= v.len(),
            all == model::stmts(v@),
            model::stmts(out@) == uncommented(all.take(i as int)),
        decreases v.len() - i,
    {
        assert(all.take(i + 1).drop_last() =~= all.take(i as int));
        assert(all[i as int] == v@[i as int]@);
        if !is_marker(&v[i]) {
            let ghost before = model::stmts(out@);
            let x = cleanup_nested(&v[i]);
            let ghost y = x@;
            out.push(x);
            assert(model::stmts(out@) =~= before.push(y));
        }
        i += 1;
    }
    assert(all.take(all.len() as int) =~= all);
    out
}

fn cleanup_nested(s: &Statement) -> (r: Statement)
    ensures
        r@ == uncommented_nested(s@),
    decreases s, 0nat,
{
    match s {
        Statement::If { condition, then_body, else_body } => Statement::If {
            condition: condition.clone(),
            then_body: cleanup_list(then_body),
            else_body: cleanup_list(else_body),
        },
        Statement::While { condition, body } => Statement::While {
            condition: condition.clone(),
            body: cleanup_list(body),
        },
        Statement::DoWhile { body, condition } => Statement::DoWhile {
            body: cleanup_list(body),
            condition: condition.clone(),
        },
        Statement::For { init, condition, update, body } => Statement::For {
            init: clone_opt_stmt(init),
            condition: clone_opt_expr(condition),
            update: clone_opt_stmt(update),
            body: cleanup_list(body),
        },
        Statement::ForIn { variable, object, body } => Statement::ForIn {
            variable: variable.clone(),
            object: object.clone(),
            body: cleanup_list(body),
        },
        Statement::ForOf { variable, iterable, body } => Statement::ForOf {
            variable: variable.clone(),
            iterable: iterable.clone(),
            body: cleanup_list(body),
        },
        Statement::Block(body) => Statement::Block(cleanup_list(body)),
        Statement::TryCatch { try_body, catch_param, catch_body, finally_body } => Statement::TryCatch {
            try_body: cleanup_list(try_body),
            catch_param: clone_opt_text(catch_param),
            catch_body: cleanup_list(catch_body),
            finally_body: cleanup_list(finally_body),
        },
        Statement::Switch { discriminant, cases, default } => Statement::Switch {
            discriminant: discriminant.clone(),
            cases: cleanup_nested_cases(cases),
            default: cleanup_nested_default(default),
        },
        _ => s.clone(),
    }
}

fn cleanup_nested_cases(v: &Vec<(Expression, Vec<Statement>)>) -> (r: Vec<(Expression, Vec<Statement>)>)
    ensures
        model::case_arms(r@) == uncommented_nested_cases(model::case_arms(v@)),
    decreases v, 0nat,
{
    let mut out: Vec<(Expression, Vec<Statement>)> = Vec::new();
    let mut i: usize = 0;
    while i < v.len()
        invariant
            i <= v.len(),
            out.len() == i,
            forall|k: int|
                0 <= k < i ==> model::case_arm(#[trigger] out@[k]) == uncommented_nested_case(
                    model::case_arm(v@[k]),
                ),
        decreases v.len() - i,
    {
        out.push((v[i].0.clone(), cleanup_list(&v[i].1)));
        i += 1;
    }
    assert(model::case_arms(out@) =~= uncommented_nested_cases(model::case_arms(v@)));
    out
}

fn cleanup_nested_default(d: &Option<Vec<Statement>>) -> (r: Option<Vec<Statement>>)
    ensures
        model::opt_stmts(r) == uncommented_nested_default(model::opt_stmts(*d)),
    decreases d, 0nat,
{
    match d {
        Some(b) => Some(cleanup_list(b)),
        None => None,
    }
}

/// Drops the markers of a generator.
pub fn cleanup_generator_comments(stmts: Vec<Statement>) -> (r: Vec<Statement>)
    ensures
        model::stmts(r@) == uncommented(model::stmts(stmts@)),
{
    cleanup_list(&stmts)
}

/// Recovers `yield`, or `await` in an asynchronous function, from marked suspend points.
pub fn detect_generator_patterns(stmts: Vec<Statement>, is_async: bool) -> (r: Vec<Statement>)
    ensures
        model::stmts(r@) == if generator_patterns(model::stmts(stmts@)) {
            suspended(is_async, model::stmts(stmts@))
        } else {
            model::stmts(stmts@)
        },
{
    if !has_generator_patterns(&stmts) {
        return stmts;
    }
    transform_generator_stmts(is_async, &stmts)
}

} // verus!
