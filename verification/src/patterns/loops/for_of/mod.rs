//! Recovers `for (x of src)` from the iterator protocol.

pub mod laws;
pub mod legacy;
pub mod modern;

pub use self::legacy::detect_legacy_for_of;
pub use self::modern::detect_for_of_loops;

use crate::ir::model;
use crate::ir::model::{Expr, Key, Stmt, Target, Val};
use crate::ir::weight;
use crate::ir::{AssignTarget, Expression, PropertyKey, Statement, Value};
use crate::text;
use vstd::prelude::*;

verus! {

/// Whether an expression is `Symbol.iterator`.
pub open spec fn symbol_iterator(e: Expr) -> bool {
    match e {
        Expr::Member { object, property: Key::Ident(p), .. } => p == "iterator"@ && *object
            == Expr::Value(Val::Variable("Symbol"@)),
        _ => false,
    }
}

/// The `obj` of `obj[Symbol.iterator]()`.
pub open spec fn iterated(e: Expr) -> Option<Expr> {
    match e {
        Expr::Call { callee, arguments } => match *callee {
            Expr::Member { object, property: Key::Computed(c), .. } => if arguments.len() == 0
                && symbol_iterator(*c) {
                Some(*object)
            } else {
                None
            },
            _ => None,
        },
        _ => None,
    }
}

fn is_symbol_iterator(e: &Expression) -> (r: bool)
    ensures
        r == symbol_iterator(e@),
{
    proof {
        reveal_with_fuel(Expression::view, 3);
        reveal_with_fuel(PropertyKey::view, 2);
    }
    match e {
        Expression::Member { object, property: PropertyKey::Ident(p), .. } => match &**object {
            Expression::Value(Value::Variable(n)) => text::same(n, "Symbol") && text::same(
                p,
                "iterator",
            ),
            _ => false,
        },
        _ => false,
    }
}

/// `obj[Symbol.iterator]()` -> `obj`.
pub fn is_iterator_call(e: &Expression) -> (r: Option<Expression>)
    ensures
        model::opt_expr(r) == iterated(e@),
{
    proof {
        reveal_with_fuel(Expression::view, 3);
        reveal_with_fuel(PropertyKey::view, 3);
    }
    match e {
        Expression::Call { callee, arguments } => {
            assert(model::exprs(arguments@).len() == arguments@.len());
            match &**callee {
                Expression::Member { object, property: PropertyKey::Computed(c), .. } => {
                    if arguments.len() == 0 && is_symbol_iterator(c) {
                        Some((**object).clone())
                    } else {
                        None
                    }
                },
                _ => None,
            }
        },
        _ => None,
    }
}

/// The statements without the `// continue` markers.
pub open spec fn without_continues(s: Seq<Stmt>) -> Seq<Stmt>
    decreases s.len(),
{
    if s.len() == 0 {
        Seq::empty()
    } else if s.last() == Stmt::Comment("continue"@) {
        without_continues(s.drop_last())
    } else {
        without_continues(s.drop_last()).push(s.last())
    }
}

/// Whether an expression calls the `return` of an iterator.
pub open spec fn return_call(e: Expr) -> bool {
    match e {
        Expr::Call { callee, .. } => match *callee {
            Expr::Member { property: Key::Ident(p), .. } => p == "return"@,
            _ => false,
        },
        _ => false,
    }
}

/// Whether an expression is the exception caught: the parameter of the handler, or the name that
/// the exception has before it gets one.
pub open spec fn caught(param: Option<Seq<char>>, e: Expr) -> bool {
    match e {
        Expr::Value(Val::Variable(n)) => param == Some(n) || n == "__exception"@,
        _ => false,
    }
}

/// Whether one of the statements gives a register the exception caught.
pub open spec fn holds_caught(param: Option<Seq<char>>, s: Seq<Stmt>, r: u32) -> bool {
    exists|i: int|
        0 <= i < s.len() && (#[trigger] s[i] matches Stmt::Assign {
            target: Target::Register(x),
            value,
        } && x == r && caught(param, value))
}

/// Whether a statement of the handler `s` throws the exception on.
pub open spec fn rethrows(param: Option<Seq<char>>, s: Seq<Stmt>, x: Stmt) -> bool {
    match x {
        Stmt::Throw(e) => caught(param, e) || (e matches Expr::Value(Val::Register(r))
            && holds_caught(param, s, r)),
        _ => false,
    }
}

/// Whether a statement calls the `return` of an iterator.
pub open spec fn closes(x: Stmt) -> bool {
    match x {
        Stmt::Expr(e) => return_call(e),
        Stmt::Assign { target: Target::Register(_), value } => return_call(value),
        _ => false,
    }
}

/// Whether a statement of a handler does no more than note the exception, or is a comment.
pub open spec fn notes_caught(param: Option<Seq<char>>, x: Stmt) -> bool {
    match x {
        Stmt::Assign { target: Target::Register(_), value } => caught(param, value),
        Stmt::Comment(_) => true,
        _ => false,
    }
}

/// Whether a handler only closes the iterator and throws the exception on: it does one of the two
/// at least, and nothing else.
pub open spec fn closing_handler(param: Option<Seq<char>>, s: Seq<Stmt>) -> bool {
    &&& forall|i: int|
        0 <= i < s.len() ==> closes(#[trigger] s[i]) || rethrows(param, s, s[i]) || notes_caught(
            param,
            s[i],
        )
    &&& exists|i: int| 0 <= i < s.len() && (closes(#[trigger] s[i]) || rethrows(param, s, s[i]))
}

/// The body inside the `try` that closes the iterator when the body throws. Any other `try` is
/// the program's own and stays.
pub open spec fn inside_try(s: Seq<Stmt>) -> Seq<Stmt> {
    if s.len() == 1 {
        match s[0] {
            Stmt::TryCatch { try_body, catch_param, catch_body, finally_body } => {
                if closing_handler(catch_param, catch_body) && finally_body.len() == 0 {
                    try_body
                } else {
                    s
                }
            },
            _ => s,
        }
    } else {
        s
    }
}

/// A loop body without what the iterator protocol wraps it in.
pub open spec fn unwrapped(s: Seq<Stmt>) -> Seq<Stmt> {
    without_continues(inside_try(s))
}

proof fn lemma_without_continues(s: Seq<Stmt>)
    ensures
        weight::weight(without_continues(s)) <= weight::weight(s),
    decreases s.len(),
{
    if s.len() > 0 {
        lemma_without_continues(s.drop_last());
        weight::lemma_weight_push(without_continues(s.drop_last()), s.last());
    }
}

/// Unwrapping adds nothing.
pub proof fn lemma_unwrapped(s: Seq<Stmt>)
    ensures
        weight::weight(unwrapped(s)) <= weight::weight(s),
{
    lemma_without_continues(inside_try(s));
    if s.len() == 1 {
        reveal_with_fuel(weight::weight, 2);
        assert(s.drop_last().len() == 0);
    }
}

fn drop_continues(v: &Vec<Statement>) -> (r: Vec<Statement>)
    ensures
        model::stmts(r@) == without_continues(model::stmts(v@)),
{
    let ghost all = model::stmts(v@);
    let mut out: Vec<Statement> = Vec::new();
    let mut i: usize = 0;
    assert(model::stmts(out@) =~= Seq::empty());
    while i < v.len()
        invariant
            i <= v.len(),
            all == model::stmts(v@),
            model::stmts(out@) == without_continues(all.take(i as int)),
        decreases v.len() - i,
    {
        assert(all.take(i + 1).drop_last() =~= all.take(i as int));
        assert(all[i as int] == v@[i as int]@);
        let ghost before = out@;
        let marker: bool = match &v[i] {
            Statement::Comment(c) => text::same(c, "continue"),
            _ => false,
        };
        if !marker {
            out.push(v[i].clone());
            assert(model::stmts(out@) =~= model::stmts(before).push(all[i as int]));
        }
        i += 1;
    }
    assert(all.take(all.len() as int) =~= all);
    out
}

fn is_return_call(e: &Expression) -> (r: bool)
    ensures
        r == return_call(e@),
{
    proof {
        reveal_with_fuel(Expression::view, 3);
        reveal_with_fuel(PropertyKey::view, 2);
    }
    match e {
        Expression::Call { callee, .. } => match &**callee {
            Expression::Member { property: PropertyKey::Ident(p), .. } => text::same(p, "return"),
            _ => false,
        },
        _ => false,
    }
}

fn is_caught(param: &Option<String>, e: &Expression) -> (r: bool)
    ensures
        r == caught(model::opt_text(*param), e@),
{
    match e {
        Expression::Value(Value::Variable(n)) => {
            let named: bool = match param {
                Some(p) => text::same(p, n),
                None => false,
            };
            named || text::same(n, "__exception")
        },
        _ => false,
    }
}

fn is_held(param: &Option<String>, v: &Vec<Statement>, r: u32) -> (b: bool)
    ensures
        b == holds_caught(model::opt_text(*param), model::stmts(v@), r),
{
    let ghost all = model::stmts(v@);
    let ghost p = model::opt_text(*param);
    let mut i: usize = 0;
    while i < v.len()
        invariant
            i <= v.len(),
            all == model::stmts(v@),
            p == model::opt_text(*param),
            forall|k: int|
                0 <= k < i ==> !(#[trigger] all[k] matches Stmt::Assign {
                    target: Target::Register(x),
                    value,
                } && x == r && caught(p, value)),
        decreases v.len() - i,
    {
        assert(all[i as int] == v@[i as int]@);
        if let Statement::Assign { target: AssignTarget::Register(x), value } = &v[i] {
            if *x == r && is_caught(param, value) {
                return true;
            }
        }
        i += 1;
    }
    false
}

fn is_rethrow(param: &Option<String>, v: &Vec<Statement>, s: &Statement) -> (b: bool)
    ensures
        b == rethrows(model::opt_text(*param), model::stmts(v@), s@),
{
    match s {
        Statement::Throw(e) => {
            if is_caught(param, e) {
                return true;
            }
            match e {
                Expression::Value(Value::Register(r)) => is_held(param, v, *r),
                _ => false,
            }
        },
        _ => false,
    }
}

fn is_closing(s: &Statement) -> (b: bool)
    ensures
        b == closes(s@),
{
    match s {
        Statement::Expr(e) => is_return_call(e),
        Statement::Assign { target: AssignTarget::Register(_), value } => is_return_call(value),
        _ => false,
    }
}

fn is_noting(param: &Option<String>, s: &Statement) -> (b: bool)
    ensures
        b == notes_caught(model::opt_text(*param), s@),
{
    match s {
        Statement::Assign { target: AssignTarget::Register(_), value } => is_caught(param, value),
        Statement::Comment(_) => true,
        _ => false,
    }
}

fn is_closing_handler(param: &Option<String>, v: &Vec<Statement>) -> (b: bool)
    ensures
        b == closing_handler(model::opt_text(*param), model::stmts(v@)),
{
    let ghost all = model::stmts(v@);
    let ghost p = model::opt_text(*param);
    let mut found: bool = false;
    let mut i: usize = 0;
    while i < v.len()
        invariant
            i <= v.len(),
            all == model::stmts(v@),
            p == model::opt_text(*param),
            forall|k: int|
                0 <= k < i ==> closes(#[trigger] all[k]) || rethrows(p, all, all[k])
                    || notes_caught(p, all[k]),
            found == exists|k: int|
                0 <= k < i && (closes(#[trigger] all[k]) || rethrows(p, all, all[k])),
        decreases v.len() - i,
    {
        assert(all[i as int] == v@[i as int]@);
        let ends: bool = is_closing(&v[i]) || is_rethrow(param, v, &v[i]);
        if !ends && !is_noting(param, &v[i]) {
            assert(!(closes(all[i as int]) || rethrows(p, all, all[i as int]) || notes_caught(
                p,
                all[i as int],
            )));
            return false;
        }
        if ends {
            assert(closes(all[i as int]) || rethrows(p, all, all[i as int]));
            found = true;
        }
        i += 1;
    }
    found
}

/// Takes a loop body out of the `try` that closes the iterator, and drops the markers of the
/// back edge.
pub fn unwrap_iterator_body(body: &Vec<Statement>) -> (r: Vec<Statement>)
    ensures
        model::stmts(r@) == unwrapped(model::stmts(body@)),
{
    assert(model::stmts(body@).len() == body@.len());
    if body.len() == 1 {
        assert(model::stmts(body@)[0] == body@[0]@);
        if let Statement::TryCatch { try_body, catch_param, catch_body, finally_body } = &body[0] {
            assert(model::stmts(finally_body@).len() == finally_body@.len());
            if finally_body.len() == 0 && is_closing_handler(catch_param, catch_body) {
                return drop_continues(try_body);
            }
        }
    }
    drop_continues(body)
}

/// The name of the loop variable that takes the place of a register.
pub open spec fn item_name(r: u32) -> Seq<char> {
    "item"@ + text::decimal(r as nat)
}

pub fn name_of_item(r: u32) -> (n: String)
    ensures
        n@ == item_name(r),
{
    text::concat2("item", &text::decimal_of(r as u64))
}

} // verus!
