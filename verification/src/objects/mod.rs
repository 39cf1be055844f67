//! Puts object literals together from the statements that fill them.

pub mod inline_literals;
pub mod laws;
pub mod refs;
pub mod slot_fills;

use crate::ir::effects;
use crate::ir::model;
use crate::ir::model::{Expr, Key, Prop, Stmt, Target, Val};
use crate::ir::occurs;
use crate::ir::occurs::{Atom, Occurrence};
use crate::ir::{AssignTarget, Expression, ObjectProperty, PropertyKey, Statement, Value};
use crate::text;
use refs::{ObjRef, Ref};
use vstd::prelude::*;

verus! {

/// The registers that a list gives values, one entry for each assignment, nested lists included.
pub open spec fn assigned(s: Seq<Stmt>) -> Seq<u32>
    decreases s,
{
    if s.len() == 0 {
        Seq::empty()
    } else {
        assigned(s.drop_last()) + assigned_stmt(s.last())
    }
}

pub open spec fn assigned_stmt(s: Stmt) -> Seq<u32>
    decreases s,
{
    match s {
        Stmt::Assign { target: Target::Register(r), .. } => seq![r],
        Stmt::If { then_body, else_body, .. } => assigned(then_body) + assigned(else_body),
        Stmt::While { body, .. } => assigned(body),
        Stmt::DoWhile { body, .. } => assigned(body),
        Stmt::For { body, .. } => assigned(body),
        Stmt::ForIn { body, .. } => assigned(body),
        Stmt::ForOf { body, .. } => assigned(body),
        Stmt::Block(body) => assigned(body),
        Stmt::TryCatch { try_body, catch_body, finally_body, .. } => assigned(try_body) + assigned(
            catch_body,
        ) + assigned(finally_body),
        Stmt::Switch { cases, default, .. } => assigned_cases(cases) + match default {
            Some(body) => assigned(body),
            None => Seq::empty(),
        },
        _ => Seq::empty(),
    }
}

pub open spec fn assigned_cases(s: Seq<(Expr, Seq<Stmt>)>) -> Seq<u32>
    decreases s,
{
    if s.len() == 0 {
        Seq::empty()
    } else {
        assigned_cases(s.drop_last()) + assigned(s.last().1)
    }
}

pub open spec fn times(s: Seq<u32>, r: u32) -> nat
    decreases s.len(),
{
    if s.len() == 0 {
        0
    } else {
        times(s.drop_last(), r) + (if s.last() == r {
            1nat
        } else {
            0nat
        })
    }
}

/// Whether a value reads, at any depth, a register that is assigned more than once, so that it may
/// be another value elsewhere.
pub open spec fn unstable(all: Seq<u32>, e: Expr) -> bool {
    exists|r: u32| #[trigger]
        times(all, r) >= 2 && occurs::expr_atoms(e).contains(Atom::Use(Val::Register(r)))
}

/// Whether a callee is the built-in `Object`, by itself or as a member of the global object.
pub open spec fn object_constructor(e: Expr) -> bool {
    match e {
        Expr::Value(Val::Variable(n)) => n == "Object"@,
        Expr::Member { object, property: Key::Ident(p), .. } => p == "Object"@ && *object
            == Expr::Value(Val::Global),
        _ => false,
    }
}

/// The register that a statement gives a new object: an empty literal, an object made by its opcode,
/// or one made by the constructor `Object`, with or without a parent. The object of any other
/// constructor is not one: a literal would lose the call.
pub open spec fn new_object(s: Stmt) -> Option<u32> {
    match s {
        Stmt::Assign { target: Target::Register(r), value } => match value {
            Expr::New { callee, .. } => if object_constructor(*callee) {
                Some(r)
            } else {
                None
            },
            Expr::Object { properties } => if properties.len() == 0 {
                Some(r)
            } else {
                None
            },
            Expr::Unknown { opcode, .. } => if opcode == "NewObject"@ || opcode
                == "NewObjectWithBuffer"@ {
                Some(r)
            } else {
                None
            },
            _ => None,
        },
        _ => None,
    }
}

/// The property that a statement gives the object in a register.
pub open spec fn put_prop(s: Stmt, r: u32) -> Option<Prop> {
    match s {
        Stmt::Assign { target: Target::Member { object, property }, value } => if object
            == Expr::Value(Val::Register(r)) {
            Some(Prop { key: Key::Ident(property), value })
        } else {
            None
        },
        Stmt::Assign { target: Target::Index { object, key }, value } => if object == Expr::Value(
            Val::Register(r),
        ) {
            Some(Prop { key: Key::Computed(Box::new(key)), value })
        } else {
            None
        },
        _ => None,
    }
}

/// The properties that the statements after a new object give it, up to the first that uses it
/// otherwise or does something else, and the statements that remain.
pub open spec fn collected(all: Seq<u32>, r: u32, s: Seq<Stmt>) -> (Seq<Prop>, Seq<Stmt>)
    decreases s.len(),
{
    if s.len() == 0 {
        (Seq::empty(), s)
    } else {
        match put_prop(s[0], r) {
            Some(p) => if unstable(all, p.value) {
                (Seq::empty(), s)
            } else {
                let x = collected(all, r, s.skip(1));
                (seq![p] + x.0, x.1)
            },
            None => if slot_fills::ends_scan(s[0], Ref::Register(r)) {
                (Seq::empty(), s)
            } else {
                let x = collected(all, r, s.skip(1));
                (x.0, seq![s[0]] + x.1)
            },
        }
    }
}

/// Collecting properties adds no statement.
pub proof fn lemma_collected(all: Seq<u32>, r: u32, s: Seq<Stmt>)
    ensures
        collected(all, r, s).1.len() <= s.len(),
        collected(all, r, s).0.len() + collected(all, r, s).1.len() == s.len(),
    decreases s.len(),
{
    if s.len() > 0 {
        lemma_collected(all, r, s.skip(1));
    }
}

/// The list with the properties that statements give a new object in its literal.
pub open spec fn with_literals(all: Seq<u32>, s: Seq<Stmt>) -> Seq<Stmt>
    decreases s.len(),
{
    if s.len() == 0 {
        s
    } else {
        match new_object(s[0]) {
            Some(r) => {
                let x = collected(all, r, s.skip(1));
                proof {
                    lemma_collected(all, r, s.skip(1));
                }
                if x.0.len() > 0 {
                    seq![object_stmt(r, x.0)] + with_literals(all, x.1)
                } else {
                    seq![s[0]] + with_literals(all, s.skip(1))
                }
            },
            None => seq![s[0]] + with_literals(all, s.skip(1)),
        }
    }
}

pub open spec fn object_stmt(r: u32, ps: Seq<Prop>) -> Stmt {
    Stmt::Assign { target: Target::Register(r), value: Expr::Object { properties: ps } }
}

/// The list with its object literals put together.
pub open spec fn object_literals(s: Seq<Stmt>) -> Seq<Stmt> {
    let t = slot_fills::fills_folded(s);
    inline_literals::inlined(with_literals(assigned(t), t))
}

fn push_assigned(v: &Vec<Statement>, out: &mut Vec<u32>)
    ensures
        final(out)@ == old(out)@ + assigned(model::stmts(v@)),
    decreases v,
{
    let ghost all = model::stmts(v@);
    let ghost first = out@;
    let mut i: usize = 0;
    assert(first + assigned(all.take(0)) =~= first);
    while i < v.len()
        invariant
            i <= v.len(),
            all == model::stmts(v@),
            out@ == first + assigned(all.take(i as int)),
        decreases v.len() - i,
    {
        assert(all.take(i + 1).drop_last() =~= all.take(i as int));
        assert(all[i as int] == v@[i as int]@);
        push_assigned_stmt(&v[i], out);
        assert(out@ =~= first + assigned(all.take(i + 1)));
        i += 1;
    }
    assert(all.take(all.len() as int) =~= all);
}

fn push_assigned_stmt(s: &Statement, out: &mut Vec<u32>)
    ensures
        final(out)@ == old(out)@ + assigned_stmt(s@),
    decreases s,
{
    let ghost first = out@;
    match s {
        Statement::Assign { target: AssignTarget::Register(r), .. } => {
            out.push(*r);
        },
        Statement::If { then_body, else_body, .. } => {
            push_assigned(then_body, out);
            push_assigned(else_body, out);
        },
        Statement::While { body, .. } => push_assigned(body, out),
        Statement::DoWhile { body, .. } => push_assigned(body, out),
        Statement::For { body, .. } => push_assigned(body, out),
        Statement::ForIn { body, .. } => push_assigned(body, out),
        Statement::ForOf { body, .. } => push_assigned(body, out),
        Statement::Block(body) => push_assigned(body, out),
        Statement::TryCatch { try_body, catch_body, finally_body, .. } => {
            push_assigned(try_body, out);
            push_assigned(catch_body, out);
            push_assigned(finally_body, out);
        },
        Statement::Switch { cases, default, .. } => {
            push_assigned_cases(cases, out);
            if let Some(body) = default {
                push_assigned(body, out);
            }
        },
        _ => {},
    }
    assert(out@ =~= first + assigned_stmt(s@));
}

fn push_assigned_cases(v: &Vec<(Expression, Vec<Statement>)>, out: &mut Vec<u32>)
    ensures
        final(out)@ == old(out)@ + assigned_cases(model::case_arms(v@)),
    decreases v,
{
    let ghost all = model::case_arms(v@);
    let ghost first = out@;
    let mut i: usize = 0;
    assert(first + assigned_cases(all.take(0)) =~= first);
    while i < v.len()
        invariant
            i <= v.len(),
            all == model::case_arms(v@),
            out@ == first + assigned_cases(all.take(i as int)),
        decreases v.len() - i,
    {
        assert(all.take(i + 1).drop_last() =~= all.take(i as int));
        assert(all[i as int] == model::case_arm(v@[i as int]));
        push_assigned(&v[i].1, out);
        assert(out@ =~= first + assigned_cases(all.take(i + 1)));
        i += 1;
    }
    assert(all.take(all.len() as int) =~= all);
}

fn is_often(all: &Vec<u32>, r: u32) -> (b: bool)
    ensures
        b == (times(all@, r) >= 2),
{
    let mut n: usize = 0;
    let mut i: usize = 0;
    while i < all.len()
        invariant
            i <= all.len(),
            n <= i,
            n == times(all@.take(i as int), r),
        decreases all.len() - i,
    {
        assert(all@.take(i + 1).drop_last() =~= all@.take(i as int));
        if all[i] == r {
            n += 1;
        }
        i += 1;
    }
    assert(all@.take(all@.len() as int) =~= all@);
    n >= 2
}

fn value_uses_any_reg(all: &Vec<u32>, e: &Expression) -> (b: bool)
    ensures
        b == unstable(all@, e@),
{
    let v = occurs::of_expr(e);
    let ghost atoms = occurs::expr_atoms(e@);
    let mut i: usize = 0;
    while i < v.len()
        invariant
            i <= v.len(),
            atoms == occurs::occs(v@),
            atoms == occurs::expr_atoms(e@),
            forall|k: int|
                0 <= k < i ==> (#[trigger] atoms[k] matches Atom::Use(Val::Register(r)) ==> times(
                    all@,
                    r,
                ) < 2),
        decreases v.len() - i,
    {
        assert(atoms[i as int] == v@[i as int]@);
        if let Occurrence::Use(Value::Register(r)) = &v[i] {
            if is_often(all, *r) {
                assert(atoms.contains(Atom::Use(Val::Register(*r))));
                assert(times(all@, *r) >= 2);
                return true;
            }
        }
        i += 1;
    }
    assert forall|r: u32| #[trigger]
        times(all@, r) >= 2 implies !atoms.contains(Atom::Use(Val::Register(r))) by {
        if atoms.contains(Atom::Use(Val::Register(r))) {
            let k = choose|k: int| 0 <= k < atoms.len() && atoms[k] == Atom::Use(Val::Register(r));
            assert(atoms[k] == Atom::Use(Val::Register(r)));
        }
    }
    false
}

fn is_object_constructor(e: &Expression) -> (r: bool)
    ensures
        r == object_constructor(e@),
{
    proof {
        reveal_with_fuel(Expression::view, 3);
        reveal_with_fuel(PropertyKey::view, 2);
    }
    match e {
        Expression::Value(Value::Variable(n)) => text::same(n, "Object"),
        Expression::Member { object, property: PropertyKey::Ident(p), .. } => match &**object {
            Expression::Value(Value::Global) => text::same(p, "Object"),
            _ => false,
        },
        _ => false,
    }
}

fn is_new_object(s: &Statement) -> (r: Option<u32>)
    ensures
        r == new_object(s@),
{
    proof {
        reveal_with_fuel(Expression::view, 2);
    }
    match s {
        Statement::Assign { target: AssignTarget::Register(r), value } => match value {
            Expression::New { callee, .. } => {
                if is_object_constructor(callee) {
                    Some(*r)
                } else {
                    None
                }
            },
            Expression::Object { properties } => {
                assert(model::props(properties@).len() == properties@.len());
                if properties.len() == 0 {
                    Some(*r)
                } else {
                    None
                }
            },
            Expression::Unknown { opcode, .. } => if text::same(opcode, "NewObject") || text::same(
                opcode,
                "NewObjectWithBuffer",
            ) {
                Some(*r)
            } else {
                None
            },
            _ => None,
        },
        _ => None,
    }
}

fn is_put_prop(s: &Statement, r: u32) -> (p: Option<ObjectProperty>)
    ensures
        match p {
            Some(x) => put_prop(s@, r) == Some(x@),
            None => put_prop(s@, r) is None,
        },
{
    proof {
        reveal_with_fuel(AssignTarget::view, 2);
    }
    match s {
        Statement::Assign { target: AssignTarget::Member { object, property }, value } => {
            if let Expression::Value(Value::Register(x)) = object {
                if *x == r {
                    return Some(
                        ObjectProperty {
                            key: PropertyKey::Ident(property.clone()),
                            value: value.clone(),
                        },
                    );
                }
            }
            None
        },
        Statement::Assign { target: AssignTarget::Index { object, key }, value } => {
            if let Expression::Value(Value::Register(x)) = object {
                if *x == r {
                    return Some(
                        ObjectProperty {
                            key: PropertyKey::Computed(Box::new(key.clone())),
                            value: value.clone(),
                        },
                    );
                }
            }
            None
        },
        _ => None,
    }
}

proof fn lemma_push_first<A>(a: Seq<A>, x: A, b: Seq<A>)
    ensures
        a + (seq![x] + b) == a.push(x) + b,
{
    assert(a + (seq![x] + b) =~= a.push(x) + b);
}

fn push_rest(v: &Vec<Statement>, from: usize, out: &mut Vec<Statement>)
    requires
        from <= v@.len(),
    ensures
        model::stmts(final(out)@) == model::stmts(old(out)@) + model::stmts(v@).skip(from as int),
{
    let ghost all = model::stmts(v@);
    let ghost first = model::stmts(out@);
    let mut i: usize = from;
    assert(first + all.subrange(from as int, from as int) =~= first);
    while i < v.len()
        invariant
            from <= i <= v.len(),
            all == model::stmts(v@),
            model::stmts(out@) == first + all.subrange(from as int, i as int),
        decreases v.len() - i,
    {
        let ghost before = model::stmts(out@);
        assert(all[i as int] == v@[i as int]@);
        out.push(v[i].clone());
        assert(model::stmts(out@) =~= before.push(all[i as int]));
        assert(model::stmts(out@) =~= first + all.subrange(from as int, i + 1));
        i += 1;
    }
    assert(all.subrange(from as int, all.len() as int) =~= all.skip(from as int));
}

fn collect_props(all: &Vec<u32>, r: u32, v: &Vec<Statement>, from: usize) -> (x: (
    Vec<ObjectProperty>,
    Vec<Statement>,
))
    requires
        from <= v@.len(),
    ensures
        (model::props(x.0@), model::stmts(x.1@)) == collected(
            all@,
            r,
            model::stmts(v@).skip(from as int),
        ),
{
    let ghost items = model::stmts(v@);
    let ghost goal = collected(all@, r, items.skip(from as int));
    let mut ps: Vec<ObjectProperty> = Vec::new();
    let mut kept: Vec<Statement> = Vec::new();
    let mut j: usize = from;
    assert(model::props(ps@) =~= Seq::empty());
    assert(model::stmts(kept@) =~= Seq::empty());
    assert(goal.0 =~= model::props(ps@) + goal.0);
    assert(goal.1 =~= model::stmts(kept@) + goal.1);
    let o = ObjRef::Register(r);
    while j < v.len()
        invariant
            from <= j <= v.len(),
            items == model::stmts(v@),
            o@ == Ref::Register(r),
            goal == collected(all@, r, items.skip(from as int)),
            goal.0 == model::props(ps@) + collected(all@, r, items.skip(j as int)).0,
            goal.1 == model::stmts(kept@) + collected(all@, r, items.skip(j as int)).1,
        decreases v.len() - j,
    {
        let ghost rest = items.skip(j as int);
        let ghost after = collected(all@, r, items.skip(j + 1));
        assert(items[j as int] == v@[j as int]@);
        assert(rest[0] == items[j as int]);
        assert(rest.skip(1) =~= items.skip(j + 1));
        let ghost ps0 = model::props(ps@);
        let ghost kept0 = model::stmts(kept@);
        match is_put_prop(&v[j], r) {
            Some(p) => {
                if value_uses_any_reg(all, &p.value) {
                    push_rest(v, j, &mut kept);
                    assert(goal.0 =~= ps0);
                    assert(goal.1 =~= model::stmts(kept@));
                    return (ps, kept);
                }
                let ghost y = p@;
                ps.push(p);
                assert(model::props(ps@) =~= ps0.push(y));
                proof {
                    lemma_push_first(ps0, y, after.0);
                }
            },
            None => {
                if refs::obj_reassigned(&v[j], &o) || refs::obj_used(&v[j], &o)
                    || effects::stmt_has_side_effects(&v[j]) {
                    push_rest(v, j, &mut kept);
                    assert(goal.0 =~= ps0);
                    assert(goal.1 =~= model::stmts(kept@));
                    return (ps, kept);
                }
                kept.push(v[j].clone());
                assert(model::stmts(kept@) =~= kept0.push(rest[0]));
                proof {
                    lemma_push_first(kept0, rest[0], after.1);
                }
            },
        }
        j += 1;
    }
    assert(items.skip(j as int) =~= Seq::empty());
    assert(goal.0 =~= model::props(ps@));
    assert(goal.1 =~= model::stmts(kept@));
    (ps, kept)
}

fn fold_literals(all: &Vec<u32>, v: Vec<Statement>) -> (out: Vec<Statement>)
    ensures
        model::stmts(out@) == with_literals(all@, model::stmts(v@)),
{
    let ghost goal = with_literals(all@, model::stmts(v@));
    let mut cur: Vec<Statement> = v;
    let mut out: Vec<Statement> = Vec::new();
    let mut i: usize = 0;
    assert(model::stmts(cur@).skip(0) =~= model::stmts(cur@));
    assert(model::stmts(out@) =~= Seq::empty());
    assert(goal =~= model::stmts(out@) + goal);
    while i < cur.len()
        invariant
            i <= cur.len(),
            goal == model::stmts(out@) + with_literals(
                all@,
                model::stmts(cur@).skip(i as int),
            ),
        decreases cur.len() - i,
    {
        let ghost items = model::stmts(cur@);
        let ghost rest = items.skip(i as int);
        let ghost out0 = model::stmts(out@);
        assert(items[i as int] == cur@[i as int]@);
        assert(rest[0] == items[i as int]);
        assert(rest.skip(1) =~= items.skip(i + 1));
        let mut next: Option<Vec<Statement>> = None;
        let mut head: Option<Statement> = None;
        if let Some(r) = is_new_object(&cur[i]) {
            let x = collect_props(all, r, &cur, i + 1);
            proof {
                lemma_collected(all@, r, rest.skip(1));
                assert(model::props(x.0@).len() == x.0@.len());
            }
            if x.0.len() > 0 {
                head = Some(
                    Statement::Assign {
                        target: AssignTarget::Register(r),
                        value: Expression::Object { properties: x.0 },
                    },
                );
                next = Some(x.1);
            }
        }
        match (head, next) {
            (Some(h), Some(n)) => {
                let ghost y = h@;
                let ghost tail = with_literals(all@, model::stmts(n@));
                out.push(h);
                assert(model::stmts(out@) =~= out0.push(y));
                assert(with_literals(all@, rest) == seq![y] + tail);
                proof {
                    lemma_push_first(out0, y, tail);
                }
                assert(model::stmts(n@).skip(0) =~= model::stmts(n@));
                assert(model::stmts(n@).len() == n@.len());
                cur = n;
                i = 0;
            },
            _ => {
                let ghost tail = with_literals(all@, items.skip(i + 1));
                out.push(cur[i].clone());
                assert(model::stmts(out@) =~= out0.push(rest[0]));
                assert(with_literals(all@, rest) == seq![rest[0]] + tail);
                proof {
                    lemma_push_first(out0, rest[0], tail);
                }
                i += 1;
            },
        }
    }
    assert(model::stmts(cur@).skip(i as int) =~= Seq::empty());
    assert(goal =~= model::stmts(out@));
    out
}

/// Puts object literals together: slot fills and property writes that follow a new object become
/// properties of its literal, and literals that are read once go where they are read.
pub fn transform_object_literals(statements: &mut Vec<Statement>)
    ensures
        model::stmts(final(statements)@) == object_literals(model::stmts(old(statements)@)),
{
    slot_fills::fold_slot_index_fills(statements);
    let mut all: Vec<u32> = Vec::new();
    push_assigned(statements, &mut all);
    assert(all@ =~= assigned(model::stmts(statements@)));
    let mut cur: Vec<Statement> = Vec::new();
    std::mem::swap(&mut cur, statements);
    let mut out = fold_literals(&all, cur);
    inline_literals::inline_single_use_literals(&mut out);
    *statements = out;
}

} // verus!
