//! Which assignments wait for their use, which are written before a statement, and what the names of
//! temporaries are.

use super::cleanup;
use super::expressions;
use super::expressions::{Line, Usage, Waiting};
use super::inline_named;
use super::inline_named::{Candidates, Work};
use super::registers;
use crate::ir::bindings;
use crate::ir::effects;
use crate::ir::model::{Expr, Key, Stmt, Target, Val};
use crate::ir::occurs;
use crate::ir::occurs::Atom;
use crate::ir::visit;
use vstd::prelude::*;

verus! {

/// Whether an expression assigns a register.
pub open spec fn assigns(e: Expr, r: u32) -> bool {
    match e {
        Expr::Assignment { target, .. } => *target == Expr::Value(Val::Register(r)),
        _ => false,
    }
}

/// Whether a statement gives a register a value, by itself or inside an expression.
pub open spec fn changes(s: Stmt, r: u32) -> bool {
    occurs::stmt_atoms(s).contains(Atom::WriteRegister(r)) || exists|i: int|
        0 <= i < visit::stmt_visits(s).len() && assigns(#[trigger] visit::stmt_visits(s)[i], r)
}

/// Whether a statement changes a register that a value reads.
pub open spec fn spoils(s: Stmt, e: Expr) -> bool {
    exists|r: u32|
        occurs::expr_atoms(e).contains(Atom::Use(Val::Register(r))) && #[trigger] changes(s, r)
}

/// Whether a statement says nothing of a register.
pub open spec fn ignores(s: Stmt, r: u32) -> bool {
    !occurs::stmt_atoms(s).contains(Atom::Use(Val::Register(r))) && !occurs::stmt_atoms(s).contains(
        Atom::WriteRegister(r),
    )
}

/// Whether a statement must not come before an assignment that waits: it has side effects, or changes
/// what the value reads.
pub open spec fn blocks(s: Stmt, w: Waiting) -> bool {
    ignores(s, w.0) && (effects::stmt_effects(s) || spoils(s, w.2))
}

proof fn lemma_writes_in(s: Seq<Expr>, r: u32)
    ensures
        expressions::writes_in(s, r) > 0 <==> exists|i: int|
            0 <= i < s.len() && assigns(#[trigger] s[i], r),
    decreases s.len(),
{
    if s.len() > 0 {
        let d = s.drop_last();
        lemma_writes_in(d, r);
        assert(assigns(s.last(), r) == (expressions::written_in(s.last()) == Some(r)));
        if exists|i: int| 0 <= i < s.len() && assigns(#[trigger] s[i], r) {
            let i = choose|i: int| 0 <= i < s.len() && assigns(#[trigger] s[i], r);
            if i < d.len() {
                assert(assigns(d[i], r));
            }
        }
        if expressions::writes_in(d, r) > 0 {
            let i = choose|i: int| 0 <= i < d.len() && assigns(#[trigger] d[i], r);
            assert(assigns(s[i], r));
        }
        if assigns(s.last(), r) {
            assert(assigns(s[s.len() - 1], r));
        }
    }
}

proof fn lemma_spoils(s: Stmt, read: Seq<Atom>)
    ensures
        expressions::writes_one_of(s, read) == (exists|r: u32|
            read.contains(Atom::Use(Val::Register(r))) && #[trigger] changes(s, r)),
    decreases read.len(),
{
    assert forall|r: u32| expressions::writes(s, r) == #[trigger] changes(s, r) by {
        lemma_writes_in(visit::stmt_visits(s), r);
    }
    if read.len() > 0 {
        let d = read.drop_last();
        lemma_spoils(s, d);
        if exists|r: u32| read.contains(Atom::Use(Val::Register(r))) && #[trigger] changes(s, r) {
            let r = choose|r: u32|
                read.contains(Atom::Use(Val::Register(r))) && #[trigger] changes(s, r);
            let i = choose|i: int| 0 <= i < read.len() && read[i] == Atom::Use(Val::Register(r));
            if i < d.len() {
                assert(d[i] == Atom::Use(Val::Register(r)));
                assert(d.contains(Atom::Use(Val::Register(r))));
            } else {
                assert(expressions::writes(s, r));
            }
        }
        if expressions::writes_one_of(s, d) {
            let r = choose|r: u32|
                d.contains(Atom::Use(Val::Register(r))) && #[trigger] changes(s, r);
            let i = choose|i: int| 0 <= i < d.len() && d[i] == Atom::Use(Val::Register(r));
            assert(read[i] == Atom::Use(Val::Register(r)));
        }
        if let Atom::Use(Val::Register(r)) = read.last() {
            assert(read[read.len() - 1] == Atom::Use(Val::Register(r)));
            assert(changes(s, r) == expressions::writes(s, r));
        }
    }
}

proof fn lemma_blocks(s: Stmt, w: Waiting)
    ensures
        blocks(s, w) == expressions::must_go(w, s),
        ignores(s, w.0) == !expressions::mentions(s, w.0),
{
    lemma_spoils(s, occurs::expr_atoms(w.2));
}

/// The assignments written before a statement are those that must not come after it, in order.
pub proof fn lemma_blocked_assignments_come_first(p: Seq<Waiting>, s: Stmt)
    ensures
        expressions::released(p, s) == p.filter(|w: Waiting| blocks(s, w)).map_values(
            |w: Waiting| w.1,
        ),
    decreases p.len(),
{
    reveal(Seq::filter);
    let f = |w: Waiting| w.1;
    let q = |w: Waiting| blocks(s, w);
    if p.len() > 0 {
        lemma_blocked_assignments_come_first(p.drop_last(), s);
        lemma_blocks(s, p.last());
        let before = p.drop_last().filter(q);
        if q(p.last()) {
            assert(before.push(p.last()).map_values(f) =~= before.map_values(f).push(f(p.last())));
        }
    }
}

/// The assignments that wait on are those that a statement ignores and that may come after it, in
/// order.
pub proof fn lemma_ignored_assignments_wait_on(p: Seq<Waiting>, s: Stmt)
    ensures
        expressions::waiting(p, s) == p.filter(
            |w: Waiting| ignores(s, w.0) && !effects::stmt_effects(s) && !spoils(s, w.2),
        ),
    decreases p.len(),
{
    reveal(Seq::filter);
    if p.len() > 0 {
        lemma_ignored_assignments_wait_on(p.drop_last(), s);
        lemma_blocks(s, p.last());
    }
}

/// A statement that uses a waiting assignment gets its value: that of the last one of the register.
pub proof fn lemma_value_reaches_its_use(p: Seq<Waiting>, s: Stmt, d: Map<u32, Expr>, i: int)
    requires
        0 <= i < p.len(),
        !ignores(s, p[i].0),
        forall|j: int| i < j < p.len() ==> (#[trigger] p[j]).0 != p[i].0,
    ensures
        registers::put_expr(
            expressions::activated(p, s, d),
            Expr::Value(Val::Register(p[i].0)),
        ) == p[i].2,
    decreases p.len(),
{
    let t = p.drop_last();
    if i < t.len() {
        assert(t[i] == p[i]);
        assert(p[p.len() - 1].0 != p[i].0);
        assert forall|j: int| i < j < t.len() implies (#[trigger] t[j]).0 != t[i].0 by {
            assert(t[j] == p[j]);
        }
        lemma_value_reaches_its_use(t, s, d, i);
        let known = expressions::activated(t, s, d);
        assert(expressions::activated(p, s, d)[p[i].0] == known[p[i].0]);
        assert(known.dom().contains(p[i].0)) by {
            lemma_activated(t, s, d, i);
        }
    }
}

proof fn lemma_activated(p: Seq<Waiting>, s: Stmt, d: Map<u32, Expr>, i: int)
    requires
        0 <= i < p.len(),
        !ignores(s, p[i].0),
    ensures
        expressions::activated(p, s, d).dom().contains(p[i].0),
    decreases p.len(),
{
    if i < p.len() - 1 {
        assert(p.drop_last()[i] == p[i]);
        lemma_activated(p.drop_last(), s, d, i);
    }
}

/// Only a register that is read once and given a value once waits. Anything else is written where it
/// stands, behind what is written before it.
pub proof fn lemma_only_single_uses_wait(u: Usage, l: Line, x: Stmt, y: Stmt)
    ensures
        match y {
            Stmt::Assign { target: Target::Register(r), value } => if occurs::count(
                u.atoms,
                Atom::Use(Val::Register(r)),
            ) == 1 && occurs::count(u.atoms, Atom::WriteRegister(r)) + expressions::writes_in(
                u.visits,
                r,
            ) == 1 {
                expressions::passed(u, l, x, y) == (Line {
                    out: l.out + expressions::released(l.pending, x),
                    pending: expressions::waiting(l.pending, x).push((r, y, value)),
                })
            } else {
                expressions::passed(u, l, x, y) == (Line {
                    out: (l.out + expressions::released(l.pending, x)).push(y),
                    pending: expressions::waiting(l.pending, x),
                })
            },
            _ => expressions::passed(u, l, x, y) == (Line {
                out: (l.out + expressions::released(l.pending, x)).push(y),
                pending: expressions::waiting(l.pending, x),
            }),
        },
{
}

/// What still waits at the end of a list is written there, in order, behind all else.
pub proof fn lemma_waiting_ends_up_written(u: Usage, d: Map<u32, Expr>, s: Seq<Stmt>, i: int)
    requires
        0 <= i < expressions::inl_walk(u, d, s).pending.len(),
    ensures
        expressions::inl_list(u, d, s).len() == expressions::inl_walk(u, d, s).out.len()
            + expressions::inl_walk(u, d, s).pending.len(),
        expressions::inl_list(u, d, s)[expressions::inl_walk(u, d, s).out.len() + i]
            == expressions::inl_walk(u, d, s).pending[i].1,
{
}

/// The definition of a temporary that is read in a nested list or on each round of a loop is written
/// before the statement, so that it is evaluated once.
pub proof fn lemma_inner_reads_get_a_definition(w: Work, s: Stmt, i: int)
    requires
        0 <= i < w.pending.len(),
        inline_named::inner_atoms(s).contains(Atom::Use(Val::Variable(w.pending[i].0))),
    ensures
        inline_named::emitted(w, s).out.contains(
            Stmt::Assign { target: Target::Variable(w.pending[i].0), value: w.pending[i].1 },
        ),
{
    lemma_any_used(w.pending, inline_named::inner_atoms(s), i);
    let f = inline_named::flushed(w);
    let made = Stmt::Assign { target: Target::Variable(w.pending[i].0), value: w.pending[i].1 };
    assert(inline_named::assignments(w.pending)[i] == made);
    assert(f.out[w.out.len() + i] == made);
    assert(inline_named::emitted(w, s).out[w.out.len() + i] == made);
}

proof fn lemma_any_used(p: Seq<(Seq<char>, Expr)>, s: Seq<Atom>, i: int)
    requires
        0 <= i < p.len(),
        s.contains(Atom::Use(Val::Variable(p[i].0))),
    ensures
        inline_named::any_used(p, s),
    decreases p.len(),
{
    if i < p.len() - 1 {
        assert(p.drop_last()[i] == p[i]);
        lemma_any_used(p.drop_last(), s, i);
    }
}

/// A definition of a temporary that is never read leaves what evaluating its value does, and goes
/// where that does nothing.
pub proof fn lemma_dead_definition_leaves_its_effects(c: Candidates, w: Work, s: Stmt)
    requires
        bindings::binding(s) matches Some(b) && !(b.1 is Function) && c.dead.contains(b.0)
            && !c.once.contains(b.0) && !c.often.contains(b.0),
    ensures
        bindings::binding(s) matches Some(b) ==> if effects::effects(b.1) {
            inline_named::inline_step(c, w, s).out == w.out.push(
                Stmt::Expr(inline_named::settled(w, b.1)),
            )
        } else {
            inline_named::inline_step(c, w, s) == w
        },
{
}

/// Of two definitions with side effects that wait, the first is written before the second waits, so
/// that they stay in order.
pub proof fn lemma_effects_stay_in_order(w: Work, n: Seq<char>, e: Expr, i: int)
    requires
        0 <= i < inline_named::spent(w, e).pending.len(),
        effects::effects(inline_named::spent(w, e).pending[i].1),
        effects::effects(inline_named::settled(w, e)),
    ensures
        inline_named::defer(w, n, e).out.contains(
            Stmt::Assign {
                target: Target::Variable(inline_named::spent(w, e).pending[i].0),
                value: inline_named::spent(w, e).pending[i].1,
            },
        ),
        inline_named::defer(w, n, e).pending == seq![(n, inline_named::settled(w, e))],
{
    let d = inline_named::spent(w, e);
    lemma_any_effects(d.pending, i);
    assert(inline_named::assignments(d.pending)[i] == (Stmt::Assign {
        target: Target::Variable(d.pending[i].0),
        value: d.pending[i].1,
    }));
    assert(inline_named::defer(w, n, e).out[d.out.len() + i] == inline_named::assignments(
        d.pending,
    )[i]);
}

proof fn lemma_any_effects(p: Seq<(Seq<char>, Expr)>, i: int)
    requires
        0 <= i < p.len(),
        effects::effects(p[i].1),
    ensures
        inline_named::any_effects(p),
    decreases p.len(),
{
    if i < p.len() - 1 {
        assert(p.drop_last()[i] == p[i]);
        lemma_any_effects(p.drop_last(), i);
    }
}

/// Whether an expression neither acts nor makes an object: it is a leaf, a member or an operator.
pub open spec fn plain(e: Expr) -> bool {
    e is Value || e is Member || e is Unary || e is Binary
}

pub open spec fn all_plain(s: Seq<Expr>) -> bool {
    forall|i: int| 0 <= i < s.len() ==> plain(#[trigger] s[i])
}

proof fn lemma_plain_join(s: Seq<Expr>, t: Seq<Expr>)
    requires
        all_plain(s),
        all_plain(t),
    ensures
        all_plain(s + t),
{
    assert forall|i: int| 0 <= i < (s + t).len() implies plain(#[trigger] (s + t)[i]) by {
        if i < s.len() {
            assert(plain(s[i]));
        } else {
            assert(plain(t[i - s.len()]));
        }
    }
}

/// A value that is written at several places has only leaves, members and operators in it: nothing
/// in it calls, assigns or makes an object.
pub proof fn lemma_copied_values_are_plain(e: Expr, n: nat)
    requires
        inline_named::simple_pure(e, n),
    ensures
        all_plain(visit::expr_visits(e)),
    decreases e,
{
    let none = Seq::<Expr>::empty();
    match e {
        Expr::Binary { left, right, .. } => {
            lemma_copied_values_are_plain(*left, n + 1);
            lemma_copied_values_are_plain(*right, n + 1);
            let a = visit::expr_visits(*left);
            let b = visit::expr_visits(*right);
            lemma_plain_join(a, b);
            lemma_plain_join(seq![e], a + b);
        },
        Expr::Member { object, property, .. } => {
            lemma_copied_values_are_plain(*object, n + 1);
            let a = visit::expr_visits(*object);
            let b = visit::key_visits(property);
            if let Key::Computed(k) = property {
                lemma_copied_values_are_plain(*k, n + 1);
                assert(b == visit::expr_visits(*k));
            }
            lemma_plain_join(a, b);
            lemma_plain_join(seq![e], a + b);
        },
        Expr::Unary { operand, .. } => {
            lemma_copied_values_are_plain(*operand, n + 1);
            lemma_plain_join(seq![e], visit::expr_visits(*operand));
        },
        _ => {
            lemma_plain_join(seq![e], none);
        },
    }
}

/// Whether a statement gives a place what the place holds.
pub open spec fn copies_itself(s: Stmt) -> bool {
    match s {
        Stmt::Assign { target, value: Expr::Value(Val::Variable(n)) } => target == Target::Variable(
            n,
        ),
        Stmt::Assign { target, value: Expr::Value(Val::Register(r)) } => target == Target::Register(
            r,
        ),
        Stmt::Let { name, value: Expr::Value(Val::Variable(n)), .. } => name == n,
        _ => false,
    }
}

/// The statements that give a place what it holds go, and no others.
pub proof fn lemma_only_self_copies_go(s: Seq<Stmt>)
    ensures
        cleanup::cleaned(s) == s.filter(|x: Stmt| !copies_itself(x)).map_values(
            |x: Stmt| cleanup::cleaned_nested(x),
        ),
    decreases s.len(),
{
    reveal(Seq::filter);
    let p = |x: Stmt| !copies_itself(x);
    let f = |x: Stmt| cleanup::cleaned_nested(x);
    if s.len() > 0 {
        lemma_only_self_copies_go(s.drop_last());
        assert(copies_itself(s.last()) == cleanup::self_assignment(s.last()));
        let before = s.drop_last().filter(p);
        if p(s.last()) {
            assert(before.push(s.last()).map_values(f) =~= before.map_values(f).push(f(s.last())));
        }
    }
}

} // verus!
