//! Puts literals that are read once in the place where they are read.

use crate::inline::registers;
use crate::ir::model;
use crate::ir::model::{Expr, Prop, Stmt, Target, Val};
use crate::ir::nested;
use crate::ir::visit;
use crate::ir::{AssignTarget, Expression, ObjectProperty, Statement, Value};
use crate::dict::keys_in_order;
use crate::propagate::substitute;
use std::collections::BTreeMap;
use vstd::prelude::*;

verus! {

/// Whether an expression is made of literals, constants and registers only.
pub open spec fn pure(e: Expr) -> bool
    decreases e,
{
    match e {
        Expr::Object { properties } => pure_props(properties),
        Expr::Array { elements } => pure_elements(elements),
        Expr::Value(Val::Constant(_)) => true,
        Expr::Value(Val::Register(_)) => true,
        _ => false,
    }
}

pub open spec fn pure_prop(p: Prop) -> bool
    decreases p,
{
    pure(p.value)
}

pub open spec fn pure_element(o: Option<Expr>) -> bool
    decreases o,
{
    match o {
        Some(e) => pure(e),
        None => true,
    }
}

pub open spec fn pure_props(s: Seq<Prop>) -> bool
    decreases s,
{
    forall|i: int| 0 <= i < s.len() ==> pure_prop(#[trigger] s[i])
}

pub open spec fn pure_elements(s: Seq<Option<Expr>>) -> bool
    decreases s,
{
    forall|i: int| 0 <= i < s.len() ==> pure_element(#[trigger] s[i])
}

/// How many of the statements give a register a value.
pub open spec fn definitions(s: Seq<Stmt>, r: u32) -> nat
    decreases s.len(),
{
    if s.len() == 0 {
        0
    } else {
        definitions(s.drop_last(), r) + (match s.last() {
            Stmt::Assign { target: Target::Register(x), .. } => if x == r {
                1nat
            } else {
                0nat
            },
            _ => 0nat,
        })
    }
}

pub open spec fn opt_visits(o: Option<Expr>) -> Seq<Expr> {
    match o {
        Some(e) => visit::expr_visits(e),
        None => Seq::empty(),
    }
}

pub open spec fn tests_visits(s: Seq<(Expr, Seq<Stmt>)>) -> Seq<Expr>
    decreases s.len(),
{
    if s.len() == 0 {
        Seq::empty()
    } else {
        tests_visits(s.drop_last()) + visit::expr_visits(s.last().0)
    }
}

/// The expressions that a statement itself reads, nested lists and patterns aside.
pub open spec fn own_visits(s: Stmt) -> Seq<Expr> {
    match s {
        Stmt::Expr(e) => visit::expr_visits(e),
        Stmt::Let { value, .. } => visit::expr_visits(value),
        Stmt::Assign { target: Target::Member { object, .. }, value } => visit::expr_visits(object)
            + visit::expr_visits(value),
        Stmt::Assign { target: Target::Index { object, key }, value } => visit::expr_visits(object)
            + visit::expr_visits(key) + visit::expr_visits(value),
        Stmt::Assign { value, .. } => visit::expr_visits(value),
        Stmt::Return(o) => opt_visits(o),
        Stmt::Throw(e) => visit::expr_visits(e),
        Stmt::If { condition, .. } => visit::expr_visits(condition),
        Stmt::While { condition, .. } => visit::expr_visits(condition),
        Stmt::DoWhile { condition, .. } => visit::expr_visits(condition),
        Stmt::For { condition, .. } => opt_visits(condition),
        Stmt::ForIn { object, .. } => visit::expr_visits(object),
        Stmt::ForOf { iterable, .. } => visit::expr_visits(iterable),
        Stmt::Switch { discriminant, cases, .. } => visit::expr_visits(discriminant)
            + tests_visits(cases),
        Stmt::Class { super_class, .. } => opt_visits(super_class),
        _ => Seq::empty(),
    }
}

pub open spec fn all_visits(s: Seq<Stmt>) -> Seq<Expr>
    decreases s.len(),
{
    if s.len() == 0 {
        Seq::empty()
    } else {
        all_visits(s.drop_last()) + own_visits(s.last())
    }
}

/// How many of the expressions are a register.
pub open spec fn times(s: Seq<Expr>, r: u32) -> nat
    decreases s.len(),
{
    if s.len() == 0 {
        0
    } else {
        times(s.drop_last(), r) + (if s.last() == Expr::Value(Val::Register(r)) {
            1nat
        } else {
            0nat
        })
    }
}

/// The register and the literal of a statement, where the literal can take the place of the
/// register: among all the statements, nested ones included, the register is given one value, and
/// read once.
pub open spec fn inlinable(all: Seq<Stmt>, s: Stmt) -> Option<(u32, Expr)> {
    match s {
        Stmt::Assign { target: Target::Register(r), value } => if (value is Object
            || value is Array) && definitions(nested::flat(all), r) == 1 && times(
            all_visits(nested::flat(all)),
            r,
        ) == 1 && pure(value) {
            Some((r, value))
        } else {
            None
        },
        _ => None,
    }
}

/// The literals that can take the place of their registers.
pub open spec fn inline_map(all: Seq<Stmt>, part: Seq<Stmt>) -> Map<u32, Expr>
    decreases part.len(),
{
    if part.len() == 0 {
        Map::empty()
    } else {
        match inlinable(all, part.last()) {
            Some(x) => inline_map(all, part.drop_last()).insert(x.0, x.1),
            None => inline_map(all, part.drop_last()),
        }
    }
}

pub open spec fn inline_count(all: Seq<Stmt>, part: Seq<Stmt>) -> nat
    decreases part.len(),
{
    if part.len() == 0 {
        0
    } else {
        inline_count(all, part.drop_last()) + (if inlinable(all, part.last()) is Some {
            1nat
        } else {
            0nat
        })
    }
}

/// The literals with the others put in them.
pub open spec fn round(m: Map<u32, Expr>) -> Map<u32, Expr> {
    Map::new(|k: u32| m.dom().contains(k), |k: u32| registers::put_expr(m.remove(k), m[k]))
}

/// The literals with the others put in them, so many times.
pub open spec fn rounds(m: Map<u32, Expr>, n: nat) -> Map<u32, Expr>
    decreases n,
{
    if n == 0 {
        m
    } else {
        rounds(round(m), (n - 1) as nat)
    }
}

pub open spec fn in_map(m: Map<u32, Expr>, s: Stmt) -> bool {
    match s {
        Stmt::Assign { target: Target::Register(r), .. } => m.dom().contains(r),
        _ => false,
    }
}

/// The statements but for those that store a literal that was put elsewhere.
pub open spec fn remaining(m: Map<u32, Expr>, s: Seq<Stmt>) -> Seq<Stmt>
    decreases s.len(),
{
    if s.len() == 0 {
        s
    } else if in_map(m, s.last()) {
        remaining(m, s.drop_last())
    } else {
        remaining(m, s.drop_last()).push(s.last())
    }
}

/// The list with each literal that is stored once and read once where it is read. The literals
/// can read each other, in any order.
pub open spec fn inlined(s: Seq<Stmt>) -> Seq<Stmt> {
    let m = rounds(inline_map(s, s), inline_count(s, s));
    if inline_count(s, s) == 0 {
        s
    } else {
        remaining(m, registers::put_stmts(m, s))
    }
}

fn is_pure_literal(e: &Expression) -> (r: bool)
    ensures
        r == pure(e@),
    decreases e,
{
    match e {
        Expression::Object { properties } => all_pure_props(properties),
        Expression::Array { elements } => all_pure_elements(elements),
        Expression::Value(Value::Constant(_)) => true,
        Expression::Value(Value::Register(_)) => true,
        _ => false,
    }
}

fn all_pure_props(v: &Vec<ObjectProperty>) -> (r: bool)
    ensures
        r == pure_props(model::props(v@)),
    decreases v,
{
    let ghost all = model::props(v@);
    let mut i: usize = 0;
    while i < v.len()
        invariant
            i <= v.len(),
            all == model::props(v@),
            forall|k: int| 0 <= k < i ==> pure_prop(#[trigger] all[k]),
        decreases v.len() - i,
    {
        assert(all[i as int] == v@[i as int]@);
        if !is_pure_literal(&v[i].value) {
            assert(!pure_prop(all[i as int]));
            return false;
        }
        i += 1;
    }
    true
}

fn all_pure_elements(v: &Vec<Option<Expression>>) -> (r: bool)
    ensures
        r == pure_elements(model::opt_exprs(v@)),
    decreases v,
{
    let ghost all = model::opt_exprs(v@);
    let mut i: usize = 0;
    while i < v.len()
        invariant
            i <= v.len(),
            all == model::opt_exprs(v@),
            forall|k: int| 0 <= k < i ==> pure_element(#[trigger] all[k]),
        decreases v.len() - i,
    {
        assert(all[i as int] == model::opt_expr(v@[i as int]));
        if let Some(e) = &v[i] {
            if !is_pure_literal(e) {
                assert(!pure_element(all[i as int]));
                return false;
            }
        }
        i += 1;
    }
    true
}

fn count_definitions(v: &Vec<&Statement>, r: u32) -> (n: usize)
    ensures
        n == definitions(nested::seen(v@), r),
{
    let ghost all = nested::seen(v@);
    let mut n: usize = 0;
    let mut i: usize = 0;
    while i < v.len()
        invariant
            i <= v.len(),
            n <= i,
            all == nested::seen(v@),
            n == definitions(all.take(i as int), r),
        decreases v.len() - i,
    {
        assert(all.take(i + 1).drop_last() =~= all.take(i as int));
        assert(all[i as int] == v@[i as int]@);
        if let Statement::Assign { target: AssignTarget::Register(x), .. } = v[i] {
            if *x == r {
                n += 1;
            }
        }
        i += 1;
    }
    assert(all.take(all.len() as int) =~= all);
    n
}

fn visit_opt<'a>(o: &'a Option<Expression>, out: &mut Vec<&'a Expression>)
    ensures
        visit::seen(final(out)@) == visit::seen(old(out)@) + opt_visits(model::opt_expr(*o)),
{
    match o {
        Some(e) => visit::visit_expr(e, out),
        None => {
            assert(visit::seen(out@) + Seq::<Expr>::empty() =~= visit::seen(out@));
        },
    }
}

fn visit_tests<'a>(v: &'a Vec<(Expression, Vec<Statement>)>, out: &mut Vec<&'a Expression>)
    ensures
        visit::seen(final(out)@) == visit::seen(old(out)@) + tests_visits(model::case_arms(v@)),
{
    let ghost all = model::case_arms(v@);
    let ghost first = visit::seen(out@);
    let mut i: usize = 0;
    assert(first + tests_visits(all.take(0)) =~= first);
    while i < v.len()
        invariant
            i <= v.len(),
            all == model::case_arms(v@),
            visit::seen(out@) == first + tests_visits(all.take(i as int)),
        decreases v.len() - i,
    {
        assert(all.take(i + 1).drop_last() =~= all.take(i as int));
        assert(all[i as int] == model::case_arm(v@[i as int]));
        visit::visit_expr(&v[i].0, out);
        assert(visit::seen(out@) =~= first + tests_visits(all.take(i + 1)));
        i += 1;
    }
    assert(all.take(all.len() as int) =~= all);
}

fn visit_own<'a>(s: &'a Statement, out: &mut Vec<&'a Expression>)
    ensures
        visit::seen(final(out)@) == visit::seen(old(out)@) + own_visits(s@),
{
    proof {
        reveal_with_fuel(AssignTarget::view, 2);
    }
    let ghost first = visit::seen(out@);
    match s {
        Statement::Expr(e) => visit::visit_expr(e, out),
        Statement::Let { value, .. } => visit::visit_expr(value, out),
        Statement::Assign { target: AssignTarget::Member { object, .. }, value } => {
            visit::visit_expr(object, out);
            visit::visit_expr(value, out);
            assert(visit::seen(out@) =~= first + own_visits(s@));
        },
        Statement::Assign { target: AssignTarget::Index { object, key }, value } => {
            visit::visit_expr(object, out);
            visit::visit_expr(key, out);
            visit::visit_expr(value, out);
            assert(visit::seen(out@) =~= first + own_visits(s@));
        },
        Statement::Assign { value, .. } => visit::visit_expr(value, out),
        Statement::Return(o) => visit_opt(o, out),
        Statement::Throw(e) => visit::visit_expr(e, out),
        Statement::If { condition, .. } => visit::visit_expr(condition, out),
        Statement::While { condition, .. } => visit::visit_expr(condition, out),
        Statement::DoWhile { condition, .. } => visit::visit_expr(condition, out),
        Statement::For { condition, .. } => visit_opt(condition, out),
        Statement::ForIn { object, .. } => visit::visit_expr(object, out),
        Statement::ForOf { iterable, .. } => visit::visit_expr(iterable, out),
        Statement::Switch { discriminant, cases, .. } => {
            visit::visit_expr(discriminant, out);
            visit_tests(cases, out);
            assert(visit::seen(out@) =~= first + own_visits(s@));
        },
        Statement::Class { super_class, .. } => visit_opt(super_class, out),
        _ => {
            assert(own_visits(s@) =~= Seq::empty());
            assert(first + Seq::<Expr>::empty() =~= first);
        },
    }
}

fn visit_all<'a>(v: &Vec<&'a Statement>) -> (r: Vec<&'a Expression>)
    ensures
        visit::seen(r@) == all_visits(nested::seen(v@)),
{
    let ghost all = nested::seen(v@);
    let mut out: Vec<&'a Expression> = Vec::new();
    let mut i: usize = 0;
    assert(visit::seen(out@) =~= Seq::empty());
    while i < v.len()
        invariant
            i <= v.len(),
            all == nested::seen(v@),
            visit::seen(out@) == all_visits(all.take(i as int)),
        decreases v.len() - i,
    {
        assert(all.take(i + 1).drop_last() =~= all.take(i as int));
        assert(all[i as int] == v@[i as int]@);
        visit_own(v[i], &mut out);
        i += 1;
    }
    assert(all.take(all.len() as int) =~= all);
    out
}

fn count_times(v: &Vec<&Expression>, r: u32) -> (n: usize)
    ensures
        n == times(visit::seen(v@), r),
{
    let ghost all = visit::seen(v@);
    let mut n: usize = 0;
    let mut i: usize = 0;
    while i < v.len()
        invariant
            i <= v.len(),
            n <= i,
            all == visit::seen(v@),
            n == times(all.take(i as int), r),
        decreases v.len() - i,
    {
        assert(all.take(i + 1).drop_last() =~= all.take(i as int));
        assert(all[i as int] == v@[i as int]@);
        if let Expression::Value(Value::Register(x)) = v[i] {
            if *x == r {
                n += 1;
            }
        }
        i += 1;
    }
    assert(all.take(all.len() as int) =~= all);
    n
}

fn is_inlinable(
    parts: &Vec<&Statement>,
    reads: &Vec<&Expression>,
    Ghost(all): Ghost<Seq<Stmt>>,
    s: &Statement,
) -> (r: Option<u32>)
    requires
        nested::seen(parts@) == nested::flat(all),
        visit::seen(reads@) == all_visits(nested::flat(all)),
    ensures
        match r {
            Some(x) => s is Assign && inlinable(all, s@) == Some((x, s->Assign_value@)),
            None => inlinable(all, s@) is None,
        },
{
    match s {
        Statement::Assign { target: AssignTarget::Register(r), value } => {
            let composite: bool = match value {
                Expression::Object { .. } => true,
                Expression::Array { .. } => true,
                _ => false,
            };
            assert(composite == (value@ is Object || value@ is Array));
            if composite && count_definitions(parts, *r) == 1 && count_times(reads, *r) == 1
                && is_pure_literal(value) {
                Some(*r)
            } else {
                None
            }
        },
        _ => None,
    }
}

fn find_literals(v: &Vec<Statement>) -> (r: (BTreeMap<u32, Expression>, usize))
    ensures
        substitute::held(r.0@) == inline_map(model::stmts(v@), model::stmts(v@)),
        r.1 == inline_count(model::stmts(v@), model::stmts(v@)),
{
    broadcast use vstd::std_specs::btree::group_btree_axioms;

    let ghost all = model::stmts(v@);
    let parts: Vec<&Statement> = nested::of_stmts(v);
    let reads: Vec<&Expression> = visit_all(&parts);
    let mut m: BTreeMap<u32, Expression> = BTreeMap::new();
    let mut n: usize = 0;
    let mut i: usize = 0;
    assert(substitute::held(m@) =~= Map::empty());
    while i < v.len()
        invariant
            i <= v.len(),
            n <= i,
            all == model::stmts(v@),
            nested::seen(parts@) == nested::flat(all),
            visit::seen(reads@) == all_visits(nested::flat(all)),
            substitute::held(m@) == inline_map(all, all.take(i as int)),
            n == inline_count(all, all.take(i as int)),
        decreases v.len() - i,
    {
        broadcast use vstd::std_specs::btree::group_btree_axioms;

        assert(all.take(i + 1).drop_last() =~= all.take(i as int));
        assert(all[i as int] == v@[i as int]@);
        if let Some(x) = is_inlinable(&parts, &reads, Ghost(all), &v[i]) {
            if let Statement::Assign { value, .. } = &v[i] {
                let ghost before = substitute::held(m@);
                let e = value.clone();
                let ghost y = e@;
                m.insert(x, e);
                assert(substitute::held(m@) =~= before.insert(x, y));
                n += 1;
            }
        }
        i += 1;
    }
    assert(all.take(all.len() as int) =~= all);
    (m, n)
}

/// Puts the literals into each other. Also tells whether any changed.
fn resolve_round(m: &mut BTreeMap<u32, Expression>) -> (changed: bool)
    ensures
        substitute::held(final(m)@) == round(substitute::held(old(m)@)),
        !changed ==> substitute::held(final(m)@) == substitute::held(old(m)@),
{
    broadcast use vstd::std_specs::btree::group_btree_axioms;

    let ghost all = substitute::held(m@);
    let keys = keys_in_order(m);
    let mut out: BTreeMap<u32, Expression> = BTreeMap::new();
    let mut changed: bool = false;
    let mut i: usize = 0;
    while i < keys.len()
        invariant
            i <= keys.len(),
            all == substitute::held(m@),
            forall|x: u32| #[trigger] keys@.contains(x) <==> m@.dom().contains(x),
            forall|x: u32| #[trigger]
                substitute::held(out@).dom().contains(x) <==> keys@.take(i as int).contains(x),
            forall|x: u32| #[trigger]
                substitute::held(out@).dom().contains(x) ==> substitute::held(out@)[x]
                    == round(all)[x] && round(all).dom().contains(x),
            !changed ==> forall|x: u32| #[trigger]
                substitute::held(out@).dom().contains(x) ==> substitute::held(out@)[x] == all[x],
        decreases keys.len() - i,
    {
        broadcast use vstd::std_specs::btree::group_btree_axioms;

        let k: u32 = keys[i];
        assert(keys@.contains(k));
        let ghost before = substitute::held(out@);
        assert(keys@.take(i + 1) =~= keys@.take(i as int).push(k));
        if let Some(e) = m.remove(&k) {
            assert(substitute::held(m@) =~= all.remove(k));
            assert(e@ == all[k]);
            let x = registers::place_expr(m, &e);
            if !x.same(&e) {
                changed = true;
            }
            let ghost y = x@;
            let ghost old_e = e@;
            m.insert(k, e);
            assert(substitute::held(m@) =~= all);
            out.insert(k, x);
            assert(substitute::held(out@) =~= before.insert(k, y));
            assert(round(all).dom().contains(k));
            assert(round(all)[k] == y);
            assert forall|x: u32| #[trigger]
                substitute::held(out@).dom().contains(x) <==> keys@.take(i + 1).contains(x) by {
                if before.dom().contains(x) {
                    let j = choose|j: int| 0 <= j < i && keys@.take(i as int)[j] == x;
                    assert(keys@.take(i + 1)[j] == x);
                }
                assert(keys@.take(i + 1)[i as int] == k);
            }
        }
        i += 1;
    }
    assert(keys@.take(keys@.len() as int) =~= keys@);
    *m = out;
    assert(substitute::held(m@) =~= round(all));
    proof {
        if !changed {
            assert(substitute::held(m@) =~= all);
        }
    }
    changed
}

proof fn lemma_rounds_settle(m: Map<u32, Expr>, n: nat)
    requires
        round(m) == m,
    ensures
        rounds(m, n) == m,
    decreases n,
{
    if n > 0 {
        lemma_rounds_settle(m, (n - 1) as nat);
    }
}

fn resolve_rounds(m: &mut BTreeMap<u32, Expression>, n: usize)
    ensures
        substitute::held(final(m)@) == rounds(substitute::held(old(m)@), n as nat),
{
    let ghost goal = rounds(substitute::held(m@), n as nat);
    let mut k: usize = n;
    while k > 0
        invariant
            k <= n,
            goal == rounds(substitute::held(m@), k as nat),
        decreases k,
    {
        let ghost before = substitute::held(m@);
        let changed: bool = resolve_round(m);
        k -= 1;
        if !changed {
            proof {
                lemma_rounds_settle(before, k as nat);
            }
            k = 0;
        }
    }
}

fn drop_inlined(m: &BTreeMap<u32, Expression>, v: &Vec<Statement>) -> (r: Vec<Statement>)
    ensures
        model::stmts(r@) == remaining(substitute::held(m@), model::stmts(v@)),
{
    broadcast use vstd::std_specs::btree::group_btree_axioms;

    let ghost all = model::stmts(v@);
    let mut out: Vec<Statement> = Vec::new();
    let mut i: usize = 0;
    assert(model::stmts(out@) =~= all.take(0));
    while i < v.len()
        invariant
            i <= v.len(),
            all == model::stmts(v@),
            model::stmts(out@) == remaining(substitute::held(m@), all.take(i as int)),
        decreases v.len() - i,
    {
        broadcast use vstd::std_specs::btree::group_btree_axioms;

        assert(all.take(i + 1).drop_last() =~= all.take(i as int));
        assert(all[i as int] == v@[i as int]@);
        let gone: bool = match &v[i] {
            Statement::Assign { target: AssignTarget::Register(r), .. } => m.contains_key(r),
            _ => false,
        };
        if !gone {
            let ghost before = model::stmts(out@);
            out.push(v[i].clone());
            assert(model::stmts(out@) =~= before.push(all[i as int]));
        }
        i += 1;
    }
    assert(all.take(all.len() as int) =~= all);
    out
}

/// Puts each object or array literal that is stored once and read once where it is read.
pub fn inline_single_use_literals(statements: &mut Vec<Statement>)
    ensures
        model::stmts(final(statements)@) == inlined(model::stmts(old(statements)@)),
{
    let x = find_literals(statements);
    let mut m = x.0;
    if x.1 > 0 {
        resolve_rounds(&mut m, x.1);
        let put = registers::place_stmts(&m, statements);
        let out = drop_inlined(&m, &put);
        *statements = out;
    }
}

} // verus!
