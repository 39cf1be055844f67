//! Recovers patterns from reads of the properties or the elements of one value, one after another.
//!
//! `x = o.x; y = o.y` is `{ x, y } = o`, and `a = v[0]; b = v[1]` is `[a, b] = v`.

use crate::ir::model;
use crate::ir::model::{Const, Expr, Key, Stmt, Target, Val};
use crate::ir::{
    AssignTarget, BinaryOp, Constant, Expression, PropertyKey, Statement, Value,
};
use vstd::prelude::*;

verus! {

/// The place that a target is, as a value.
pub open spec fn place(t: Target) -> Option<Val> {
    match t {
        Target::Register(r) => Some(Val::Register(r)),
        Target::Variable(n) => Some(Val::Variable(n)),
        _ => None,
    }
}

/// What is read of a value.
pub enum Part {
    Name(Seq<char>),
    Index(int),
}

pub open spec fn part(k: Key) -> Option<Part> {
    match k {
        Key::Ident(n) => Some(Part::Name(n)),
        Key::Index(n) => Some(Part::Index(n as int)),
        Key::Computed(e) => match *e {
            Expr::Value(Val::Constant(Const::Integer(n))) => Some(Part::Index(n as int)),
            _ => None,
        },
        _ => None,
    }
}

/// A read of a part of a register or a variable into another: what is read, the part and the
/// target.
pub open spec fn access(s: Stmt) -> Option<(Val, Part, Target)> {
    match s {
        Stmt::Assign { target, value: Expr::Member { object, property, optional } } => match (
            place(target),
            *object,
            part(property),
        ) {
            (Some(p), Expr::Value(v), Some(x)) => if !optional && p != v && (v is Register
                || v is Variable) {
                Some((v, x, target))
            } else {
                None
            },
            _ => None,
        },
        _ => None,
    }
}

/// The value that a statement gives a target in place of `undefined`.
pub open spec fn default_of(s: Stmt, t: Target) -> Option<Expr> {
    match s {
        Stmt::If { condition, then_body, else_body } => if then_body.len() == 1 && else_body.len()
            == 0 && undefined_check(condition, t) {
            match then_body[0] {
                Stmt::Assign { target, value } => if target == t {
                    Some(value)
                } else {
                    None
                },
                _ => None,
            }
        } else {
            None
        },
        _ => None,
    }
}

pub open spec fn undefined_check(e: Expr, t: Target) -> bool {
    match (e, place(t)) {
        (Expr::Binary { op: BinaryOp::StrictEq, left, right }, Some(p)) => *left == Expr::Value(p)
            && *right == Expr::Value(Val::Constant(Const::Undefined)),
        _ => false,
    }
}

/// The default of the read at a position, if the next statement gives one.
pub open spec fn default_at(s: Seq<Stmt>, i: int, t: Target) -> Option<Expr> {
    if i + 1 < s.len() {
        default_of(s[i + 1], t)
    } else {
        None
    }
}

/// How many statements the read at a position is.
pub open spec fn width(s: Seq<Stmt>, i: int, t: Target) -> int {
    if default_at(s, i, t) is Some {
        2
    } else {
        1
    }
}

/// The reads of named properties of a value from a position on, and where they end.
pub open spec fn fields_from(s: Seq<Stmt>, i: int, v: Val) -> (
    Seq<(Seq<char>, Target, Option<Expr>)>,
    int,
)
    decreases s.len() - i,
{
    if i < 0 || i >= s.len() {
        (Seq::empty(), i)
    } else {
        match access(s[i]) {
            Some((w, Part::Name(n), t)) => if w == v {
                let x = fields_from(s, i + width(s, i, t), v);
                (seq![(n, t, default_at(s, i, t))] + x.0, x.1)
            } else {
                (Seq::empty(), i)
            },
            _ => (Seq::empty(), i),
        }
    }
}

/// The reads of the elements of a value from an index on, and where they end.
pub open spec fn elements_from(s: Seq<Stmt>, i: int, v: Val, k: int) -> (
    Seq<Option<(Target, Option<Expr>)>>,
    int,
)
    decreases s.len() - i,
{
    if i < 0 || i >= s.len() {
        (Seq::empty(), i)
    } else {
        match access(s[i]) {
            Some((w, Part::Index(n), t)) => if w == v && n == k {
                let x = elements_from(s, i + width(s, i, t), v, k + 1);
                (seq![Some((t, default_at(s, i, t)))] + x.0, x.1)
            } else {
                (Seq::empty(), i)
            },
            _ => (Seq::empty(), i),
        }
    }
}

/// The pattern that starts at a position, of two parts or more, and where it ends.
pub open spec fn pattern_at(s: Seq<Stmt>, i: int) -> Option<(Stmt, int)> {
    match access(s[i]) {
        Some((v, Part::Name(_), _)) => {
            let x = fields_from(s, i, v);
            if x.0.len() >= 2 {
                Some(
                    (
                        Stmt::Assign {
                            target: Target::DestructuringObject(x.0),
                            value: Expr::Value(v),
                        },
                        x.1,
                    ),
                )
            } else {
                None
            }
        },
        Some((v, Part::Index(_), _)) => {
            let x = elements_from(s, i, v, 0);
            if x.0.len() >= 2 {
                Some(
                    (
                        Stmt::Assign {
                            target: Target::DestructuringArray(x.0),
                            value: Expr::Value(v),
                        },
                        x.1,
                    ),
                )
            } else {
                None
            }
        },
        None => None,
    }
}

/// A pattern is longer than the two parts that it has at least.
pub proof fn lemma_fields_end(s: Seq<Stmt>, i: int, v: Val)
    requires
        0 <= i <= s.len(),
    ensures
        i + fields_from(s, i, v).0.len() <= fields_from(s, i, v).1 <= s.len(),
    decreases s.len() - i,
{
    if i < s.len() {
        if let Some((w, Part::Name(n), t)) = access(s[i]) {
            lemma_fields_end(s, i + width(s, i, t), v);
        }
    }
}

/// A pattern is longer than the two parts that it has at least.
pub proof fn lemma_elements_end(s: Seq<Stmt>, i: int, v: Val, k: int)
    requires
        0 <= i <= s.len(),
    ensures
        i + elements_from(s, i, v, k).0.len() <= elements_from(s, i, v, k).1 <= s.len(),
    decreases s.len() - i,
{
    if i < s.len() {
        if let Some((w, Part::Index(n), t)) = access(s[i]) {
            lemma_elements_end(s, i + width(s, i, t), v, k + 1);
        }
    }
}

pub proof fn lemma_pattern_end(s: Seq<Stmt>, i: int)
    requires
        0 <= i < s.len(),
    ensures
        pattern_at(s, i) matches Some(x) ==> i < x.1 <= s.len(),
{
    if let Some((v, x, t)) = access(s[i]) {
        lemma_fields_end(s, i, v);
        lemma_elements_end(s, i, v, 0);
    }
}

/// The list from a position on with its patterns recovered.
pub open spec fn patterns_from(s: Seq<Stmt>, i: int) -> Seq<Stmt>
    decreases s.len() - i,
{
    if i < 0 || i >= s.len() {
        Seq::empty()
    } else {
        proof {
            lemma_pattern_end(s, i);
        }
        match pattern_at(s, i) {
            Some(x) => seq![x.0] + patterns_from(s, x.1),
            None => seq![s[i]] + patterns_from(s, i + 1),
        }
    }
}

/// What is read of a value, in code.
enum Piece {
    Name(String),
    Index(i64),
}

impl Piece {
    spec fn view(&self) -> Part {
        match self {
            Piece::Name(n) => Part::Name(n@),
            Piece::Index(n) => Part::Index(*n as int),
        }
    }
}

fn find_place(t: &AssignTarget) -> (r: Option<Value>)
    ensures
        match r {
            Some(v) => place(t@) == Some(v@),
            None => place(t@) is None,
        },
{
    match t {
        AssignTarget::Register(r) => Some(Value::Register(*r)),
        AssignTarget::Variable(n) => Some(Value::Variable(n.clone())),
        _ => None,
    }
}

fn find_part(k: &PropertyKey) -> (r: Option<Piece>)
    ensures
        match r {
            Some(x) => part(k@) == Some(x@),
            None => part(k@) is None,
        },
{
    proof {
        reveal_with_fuel(PropertyKey::view, 2);
        reveal_with_fuel(Expression::view, 2);
    }
    match k {
        PropertyKey::Ident(n) => Some(Piece::Name(n.clone())),
        PropertyKey::Index(n) => Some(Piece::Index(*n)),
        PropertyKey::Computed(e) => match &**e {
            Expression::Value(Value::Constant(Constant::Integer(n))) => Some(
                Piece::Index(*n as i64),
            ),
            _ => None,
        },
        _ => None,
    }
}

fn find_access(s: &Statement) -> (r: Option<(&Value, Piece, &AssignTarget)>)
    ensures
        match r {
            Some(x) => access(s@) == Some((x.0@, x.1@, x.2@)),
            None => access(s@) is None,
        },
{
    proof {
        reveal_with_fuel(Expression::view, 3);
    }
    match s {
        Statement::Assign { target, value: Expression::Member { object, property, optional } } => {
            let p = find_place(target);
            let x = find_part(property);
            match (p, &**object, x) {
                (Some(p), Expression::Value(v), Some(x)) => {
                    let whole: bool = match v {
                        Value::Register(_) => true,
                        Value::Variable(_) => true,
                        _ => false,
                    };
                    assert(whole == (v@ is Register || v@ is Variable));
                    if !*optional && !p.same(v) && whole {
                        Some((v, x, target))
                    } else {
                        None
                    }
                },
                _ => None,
            }
        },
        _ => None,
    }
}

fn is_undefined_check(e: &Expression, t: &AssignTarget) -> (r: bool)
    ensures
        r == undefined_check(e@, t@),
{
    proof {
        reveal_with_fuel(Expression::view, 2);
    }
    match (e, find_place(t)) {
        (Expression::Binary { op: BinaryOp::StrictEq, left, right }, Some(p)) => {
            let first: bool = match &**left {
                Expression::Value(v) => v.same(&p),
                _ => false,
            };
            let second: bool = match &**right {
                Expression::Value(Value::Constant(Constant::Undefined)) => true,
                _ => false,
            };
            first && second
        },
        _ => false,
    }
}

fn find_default<'a>(s: &'a Statement, t: &AssignTarget) -> (r: Option<&'a Expression>)
    ensures
        match r {
            Some(e) => default_of(s@, t@) == Some(e@),
            None => default_of(s@, t@) is None,
        },
{
    match s {
        Statement::If { condition, then_body, else_body } => {
            assert(model::stmts(then_body@).len() == then_body@.len());
            assert(model::stmts(else_body@).len() == else_body@.len());
            if then_body.len() == 1 && else_body.len() == 0 && is_undefined_check(condition, t) {
                assert(model::stmts(then_body@)[0] == then_body@[0]@);
                if let Statement::Assign { target, value } = &then_body[0] {
                    if target.same(t) {
                        return Some(value);
                    }
                }
            }
            None
        },
        _ => None,
    }
}

fn find_default_at<'a>(v: &'a Vec<Statement>, i: usize, t: &AssignTarget) -> (r: Option<
    &'a Expression,
>)
    requires
        i < v.len(),
    ensures
        match r {
            Some(e) => i + 1 < v.len() && default_at(model::stmts(v@), i as int, t@) == Some(e@),
            None => default_at(model::stmts(v@), i as int, t@) is None,
        },
{
    assert(model::stmts(v@).len() == v@.len());
    if i + 1 < v.len() {
        assert(model::stmts(v@)[i + 1] == v@[i + 1]@);
        find_default(&v[i + 1], t)
    } else {
        None
    }
}

fn copy_expr(o: Option<&Expression>) -> (r: Option<Expression>)
    ensures
        match o {
            Some(e) => model::opt_expr(r) == Some(e@),
            None => r is None,
        },
{
    match o {
        Some(e) => Some(e.clone()),
        None => None,
    }
}

fn collect_fields(v: &Vec<Statement>, from: usize, o: &Value) -> (r: (
    Vec<(String, AssignTarget, Option<Expression>)>,
    usize,
))
    requires
        from <= v.len(),
    ensures
        (model::fields(r.0@), r.1 as int) == fields_from(model::stmts(v@), from as int, o@),
        from <= r.1 <= v.len(),
{
    let ghost all = model::stmts(v@);
    let ghost goal = fields_from(all, from as int, o@);
    let mut out: Vec<(String, AssignTarget, Option<Expression>)> = Vec::new();
    let mut i: usize = from;
    assert(model::fields(out@) =~= Seq::empty());
    assert(goal.0 =~= model::fields(out@) + goal.0);
    while i < v.len()
        invariant
            from <= i <= v.len(),
            all == model::stmts(v@),
            all.len() == v@.len(),
            goal == fields_from(all, from as int, o@),
            goal.0 == model::fields(out@) + fields_from(all, i as int, o@).0,
            goal.1 == fields_from(all, i as int, o@).1,
        decreases v.len() - i,
    {
        assert(all[i as int] == v@[i as int]@);
        let ghost out0 = model::fields(out@);
        match find_access(&v[i]) {
            Some((w, Piece::Name(n), t)) => {
                if !w.same(o) {
                    assert(goal.0 =~= out0);
                    return (out, i);
                }
                let d = find_default_at(v, i, t);
                let step: usize = if d.is_some() {
                    2
                } else {
                    1
                };
                let x = (n, t.clone(), copy_expr(d));
                let ghost y = model::field(x);
                let ghost tail = fields_from(all, i + step, o@);
                assert(y.2 == default_at(all, i as int, t@));
                out.push(x);
                assert(model::fields(out@) =~= out0.push(y));
                assert(out0 + (seq![y] + tail.0) =~= out0.push(y) + tail.0);
                i += step;
            },
            _ => {
                assert(goal.0 =~= out0);
                return (out, i);
            },
        }
    }
    assert(goal.0 =~= model::fields(out@));
    (out, i)
}

fn collect_elements(v: &Vec<Statement>, from: usize, o: &Value) -> (r: (
    Vec<Option<(AssignTarget, Option<Expression>)>>,
    usize,
))
    requires
        from <= v.len(),
    ensures
        (model::slots(r.0@), r.1 as int) == elements_from(
            model::stmts(v@),
            from as int,
            o@,
            0,
        ),
        from <= r.1 <= v.len(),
{
    let ghost all = model::stmts(v@);
    let ghost goal = elements_from(all, from as int, o@, 0);
    let mut out: Vec<Option<(AssignTarget, Option<Expression>)>> = Vec::new();
    let mut i: usize = from;
    assert(model::slots(out@) =~= Seq::empty());
    assert(goal.0 =~= model::slots(out@) + goal.0);
    while i < v.len()
        invariant
            from <= i <= v.len(),
            all == model::stmts(v@),
            all.len() == v@.len(),
            goal == elements_from(all, from as int, o@, 0),
            goal.0 == model::slots(out@) + elements_from(
                all,
                i as int,
                o@,
                out@.len() as int,
            ).0,
            goal.1 == elements_from(all, i as int, o@, out@.len() as int).1,
        decreases v.len() - i,
    {
        assert(all[i as int] == v@[i as int]@);
        let ghost out0 = model::slots(out@);
        let k: usize = out.len();
        match find_access(&v[i]) {
            Some((w, Piece::Index(n), t)) => {
                if !w.same(o) || n < 0 || (n as u64) != (k as u64) {
                    assert(goal.0 =~= out0);
                    return (out, i);
                }
                let d = find_default_at(v, i, t);
                let step: usize = if d.is_some() {
                    2
                } else {
                    1
                };
                let x = Some((t.clone(), copy_expr(d)));
                let ghost y = model::slot(x);
                let ghost tail = elements_from(all, i + step, o@, k + 1);
                assert(y == Some((t@, default_at(all, i as int, t@))));
                out.push(x);
                assert(model::slots(out@) =~= out0.push(y));
                assert(out0 + (seq![y] + tail.0) =~= out0.push(y) + tail.0);
                i += step;
            },
            _ => {
                assert(goal.0 =~= out0);
                return (out, i);
            },
        }
    }
    assert(goal.0 =~= model::slots(out@));
    (out, i)
}

fn find_pattern(v: &Vec<Statement>, i: usize) -> (r: Option<(Statement, usize)>)
    requires
        i < v.len(),
    ensures
        match r {
            Some(x) => pattern_at(model::stmts(v@), i as int) == Some((x.0@, x.1 as int)) && i
                < x.1 <= v.len(),
            None => pattern_at(model::stmts(v@), i as int) is None,
        },
{
    let ghost all = model::stmts(v@);
    assert(all.len() == v@.len());
    assert(all[i as int] == v@[i as int]@);
    proof {
        lemma_pattern_end(all, i as int);
    }
    match find_access(&v[i]) {
        Some((o, Piece::Name(_), _)) => {
            let x = collect_fields(v, i, o);
            assert(model::fields(x.0@).len() == x.0@.len());
            if x.0.len() >= 2 {
                Some(
                    (
                        Statement::Assign {
                            target: AssignTarget::DestructuringObject(x.0),
                            value: Expression::Value(o.clone()),
                        },
                        x.1,
                    ),
                )
            } else {
                None
            }
        },
        Some((o, Piece::Index(_), _)) => {
            let x = collect_elements(v, i, o);
            assert(model::slots(x.0@).len() == x.0@.len());
            if x.0.len() >= 2 {
                Some(
                    (
                        Statement::Assign {
                            target: AssignTarget::DestructuringArray(x.0),
                            value: Expression::Value(o.clone()),
                        },
                        x.1,
                    ),
                )
            } else {
                None
            }
        },
        None => None,
    }
}

/// Recovers the patterns of a list, nested lists aside.
pub fn transform_destructuring(stmts: &mut Vec<Statement>)
    ensures
        model::stmts(final(stmts)@) == patterns_from(model::stmts(old(stmts)@), 0),
{
    let ghost all = model::stmts(stmts@);
    let ghost goal = patterns_from(all, 0);
    let mut out: Vec<Statement> = Vec::new();
    let mut i: usize = 0;
    assert(model::stmts(out@) =~= Seq::empty());
    assert(goal =~= model::stmts(out@) + goal);
    while i < stmts.len()
        invariant
            i <= stmts.len(),
            all == model::stmts(stmts@),
            goal == model::stmts(out@) + patterns_from(all, i as int),
        decreases stmts.len() - i,
    {
        assert(all.len() == stmts@.len());
        assert(all[i as int] == stmts@[i as int]@);
        let ghost out0 = model::stmts(out@);
        match find_pattern(stmts, i) {
            Some(x) => {
                let ghost y = x.0@;
                let ghost tail = patterns_from(all, x.1 as int);
                out.push(x.0);
                assert(model::stmts(out@) =~= out0.push(y));
                assert(out0 + (seq![y] + tail) =~= out0.push(y) + tail);
                i = x.1;
            },
            None => {
                let ghost tail = patterns_from(all, i + 1);
                out.push(stmts[i].clone());
                assert(model::stmts(out@) =~= out0.push(all[i as int]));
                assert(out0 + (seq![all[i as int]] + tail) =~= out0.push(all[i as int]) + tail);
                i += 1;
            },
        }
    }
    assert(goal =~= model::stmts(out@));
    *stmts = out;
}

} // verus!
