//! Inlines registers that are assigned once and read once.

use super::registers;
use super::registers::{place_expr, place_opt_expr, place_stmt};
use crate::ir::cloning::clone_opt_text;
use crate::ir::effects;
use crate::ir::model;
use crate::ir::model::{Expr, Stmt, Val};
use crate::ir::occurs;
use crate::ir::occurs::{Atom, Occurrence};
use crate::ir::visit;
use crate::ir::{Expression, Statement, Value};
use crate::propagate;
use crate::propagate::as_assigned;
use crate::propagate::substitute;
use std::collections::BTreeMap;
use vstd::prelude::*;

verus! {

/// The register that an assignment expression writes.
pub open spec fn written_in(e: Expr) -> Option<u32> {
    match e {
        Expr::Assignment { target, .. } => match *target {
            Expr::Value(Val::Register(r)) => Some(r),
            _ => None,
        },
        _ => None,
    }
}

fn find_written(e: &Expression) -> (r: Option<u32>)
    ensures
        r == written_in(e@),
{
    proof {
        reveal_with_fuel(Expression::view, 2);
    }
    match e {
        Expression::Assignment { target, .. } => match &**target {
            Expression::Value(Value::Register(r)) => Some(*r),
            _ => None,
        },
        _ => None,
    }
}

/// How often assignment expressions write a register.
pub open spec fn writes_in(s: Seq<Expr>, r: u32) -> nat
    decreases s.len(),
{
    if s.len() == 0 {
        0
    } else if written_in(s.last()) == Some(r) {
        writes_in(s.drop_last(), r) + 1
    } else {
        writes_in(s.drop_last(), r)
    }
}

/// What occurs in a function, and the expressions in it.
#[verifier::ext_equal]
pub struct Usage {
    pub atoms: Seq<Atom>,
    pub visits: Seq<Expr>,
}

pub open spec fn usage(s: Seq<Stmt>) -> Usage {
    Usage { atoms: occurs::stmts_atoms(s), visits: visit::stmts_visits(s) }
}

/// Whether a register is assigned once and read once.
pub open spec fn single(u: Usage, r: u32) -> bool {
    &&& occurs::count(u.atoms, Atom::Use(Val::Register(r))) == 1
    &&& occurs::count(u.atoms, Atom::WriteRegister(r)) + writes_in(u.visits, r) == 1
}

/// Whether a statement reads or writes a register.
pub open spec fn mentions(s: Stmt, r: u32) -> bool {
    let atoms = occurs::stmt_atoms(s);
    atoms.contains(Atom::Use(Val::Register(r))) || atoms.contains(Atom::WriteRegister(r))
}

/// Whether a statement writes a register that the expressions seen are made of.
pub open spec fn writes_one_of(s: Stmt, read: Seq<Atom>) -> bool
    decreases read.len(),
{
    read.len() > 0 && (writes_one_of(s, read.drop_last()) || match read.last() {
        Atom::Use(Val::Register(r)) => writes(s, r),
        _ => false,
    })
}

/// Whether a statement writes a register, by itself or inside an expression.
pub open spec fn writes(s: Stmt, r: u32) -> bool {
    occurs::stmt_atoms(s).contains(Atom::WriteRegister(r)) || writes_in(visit::stmt_visits(s), r)
        > 0
}

/// Whether a statement changes what an expression reads.
pub open spec fn redefines(s: Stmt, e: Expr) -> bool {
    writes_one_of(s, occurs::expr_atoms(e))
}

/// An assignment that waits for its use: the register, the statement and the value.
pub type Waiting = (u32, Stmt, Expr);

/// The values of the waiting assignments that a statement uses.
pub open spec fn activated(p: Seq<Waiting>, s: Stmt, d: Map<u32, Expr>) -> Map<u32, Expr>
    decreases p.len(),
{
    if p.len() == 0 {
        d
    } else {
        let before = activated(p.drop_last(), s, d);
        if mentions(s, p.last().0) {
            before.insert(p.last().0, p.last().2)
        } else {
            before
        }
    }
}

/// Whether a waiting assignment must be written before a statement that does not use it.
pub open spec fn must_go(w: Waiting, s: Stmt) -> bool {
    !mentions(s, w.0) && (effects::stmt_effects(s) || redefines(s, w.2))
}

/// The waiting assignments that are written before a statement.
pub open spec fn released(p: Seq<Waiting>, s: Stmt) -> Seq<Stmt>
    decreases p.len(),
{
    if p.len() == 0 {
        Seq::empty()
    } else if must_go(p.last(), s) {
        released(p.drop_last(), s).push(p.last().1)
    } else {
        released(p.drop_last(), s)
    }
}

/// The waiting assignments that wait on.
pub open spec fn waiting(p: Seq<Waiting>, s: Stmt) -> Seq<Waiting>
    decreases p.len(),
{
    if p.len() == 0 {
        Seq::empty()
    } else if mentions(s, p.last().0) || must_go(p.last(), s) {
        waiting(p.drop_last(), s)
    } else {
        waiting(p.drop_last(), s).push(p.last())
    }
}

/// The statements of waiting assignments.
pub open spec fn held_back(p: Seq<Waiting>) -> Seq<Stmt> {
    p.map_values(|w: Waiting| w.1)
}

/// The state of the pass over a list.
#[verifier::ext_equal]
pub struct Line {
    pub out: Seq<Stmt>,
    pub pending: Seq<Waiting>,
}

/// The values still known after a list: a list with statements in it uses them up.
pub open spec fn left_after(d: Map<u32, Expr>, s: Seq<Stmt>) -> Map<u32, Expr> {
    if s.len() == 0 {
        d
    } else {
        Map::empty()
    }
}

/// The values still known after a statement.
pub open spec fn left_after_stmt(d: Map<u32, Expr>, s: Stmt) -> Map<u32, Expr>
    decreases s,
{
    match s {
        Stmt::If { then_body, else_body, .. } => left_after(left_after(d, then_body), else_body),
        Stmt::While { body, .. } => left_after(d, body),
        Stmt::DoWhile { body, .. } => left_after(d, body),
        Stmt::For { init, update, body, .. } => left_after(
            left_after_opt(left_after_opt(d, init), update),
            body,
        ),
        Stmt::ForIn { body, .. } => left_after(d, body),
        Stmt::ForOf { body, .. } => left_after(d, body),
        Stmt::Block(body) => left_after(d, body),
        Stmt::TryCatch { try_body, catch_body, finally_body, .. } => left_after(
            left_after(left_after(d, try_body), catch_body),
            finally_body,
        ),
        Stmt::Switch { cases, default, .. } => match default {
            Some(b) => left_after(left_after_cases(d, cases), b),
            None => left_after_cases(d, cases),
        },
        _ => d,
    }
}

pub open spec fn left_after_opt(d: Map<u32, Expr>, o: Option<Box<Stmt>>) -> Map<u32, Expr>
    decreases o,
{
    match o {
        Some(s) => left_after_stmt(d, *s),
        None => d,
    }
}

pub open spec fn left_after_cases(
    d: Map<u32, Expr>,
    s: Seq<(Expr, Seq<Stmt>)>,
) -> Map<u32, Expr>
    decreases s.len(),
{
    if s.len() == 0 {
        d
    } else {
        left_after(left_after_cases(d, s.drop_last()), s.last().1)
    }
}

/// A list with the values of `d` written into its first statement, and with its own assignments
/// inlined.
pub open spec fn inl_list(u: Usage, d: Map<u32, Expr>, s: Seq<Stmt>) -> Seq<Stmt>
    decreases s, 1nat,
{
    let l = inl_walk(u, d, s);
    l.out + held_back(l.pending)
}

pub open spec fn inl_walk(u: Usage, d: Map<u32, Expr>, s: Seq<Stmt>) -> Line
    decreases s, 0nat,
{
    if s.len() == 0 {
        Line { out: Seq::empty(), pending: Seq::empty() }
    } else {
        let l = inl_walk(u, d, s.drop_last());
        let x = s.last();
        let known = activated(
            l.pending,
            x,
            if s.len() == 1 {
                d
            } else {
                Map::empty()
            },
        );
        passed(u, l, x, inl_stmt(u, known, x))
    }
}

/// The state once the statement `x`, rewritten to `y`, is passed.
pub open spec fn passed(u: Usage, l: Line, x: Stmt, y: Stmt) -> Line {
    let out = l.out + released(l.pending, x);
    let left = waiting(l.pending, x);
    match propagate::assigned(y) {
        Some(a) => if single(u, a.0) {
            Line { out, pending: left.push((a.0, y, a.1)) }
        } else {
            Line { out: out.push(y), pending: left }
        },
        None => Line { out: out.push(y), pending: left },
    }
}

pub open spec fn inl_stmt(u: Usage, d: Map<u32, Expr>, s: Stmt) -> Stmt
    decreases s, 2nat,
{
    match s {
        Stmt::If { condition, then_body, else_body } => Stmt::If {
            condition: registers::put_expr(d, condition),
            then_body: inl_list(u, d, then_body),
            else_body: inl_list(u, left_after(d, then_body), else_body),
        },
        Stmt::While { condition, body } => Stmt::While {
            condition: registers::put_expr(d, condition),
            body: inl_list(u, d, body),
        },
        Stmt::DoWhile { body, condition } => Stmt::DoWhile {
            body: inl_list(u, d, body),
            condition: registers::put_expr(d, condition),
        },
        Stmt::For { init, condition, update, body } => {
            let d1 = left_after_opt(d, init);
            let d2 = left_after_opt(d1, update);
            Stmt::For {
                init: inl_opt(u, d, init),
                condition: registers::put_opt_expr(d1, condition),
                update: inl_opt(u, d1, update),
                body: inl_list(u, d2, body),
            }
        },
        Stmt::ForIn { variable, object, body } => Stmt::ForIn {
            variable,
            object: registers::put_expr(d, object),
            body: inl_list(u, d, body),
        },
        Stmt::ForOf { variable, iterable, body } => Stmt::ForOf {
            variable,
            iterable: registers::put_expr(d, iterable),
            body: inl_list(u, d, body),
        },
        Stmt::Block(body) => Stmt::Block(inl_list(u, d, body)),
        Stmt::TryCatch { try_body, catch_param, catch_body, finally_body } => {
            let d1 = left_after(d, try_body);
            let d2 = left_after(d1, catch_body);
            Stmt::TryCatch {
                try_body: inl_list(u, d, try_body),
                catch_param,
                catch_body: inl_list(u, d1, catch_body),
                finally_body: inl_list(u, d2, finally_body),
            }
        },
        Stmt::Switch { discriminant, cases, default } => Stmt::Switch {
            discriminant: registers::put_expr(d, discriminant),
            cases: inl_cases(u, d, cases),
            default: match default {
                Some(b) => Some(inl_list(u, left_after_cases(d, cases), b)),
                None => None,
            },
        },
        _ => registers::put_stmt(d, s),
    }
}

pub open spec fn inl_opt(u: Usage, d: Map<u32, Expr>, o: Option<Box<Stmt>>) -> Option<Box<Stmt>>
    decreases o, 3nat,
{
    match o {
        Some(s) => Some(Box::new(inl_stmt(u, d, *s))),
        None => None,
    }
}

pub open spec fn inl_cases(
    u: Usage,
    d: Map<u32, Expr>,
    s: Seq<(Expr, Seq<Stmt>)>,
) -> Seq<(Expr, Seq<Stmt>)>
    decreases s, 3nat,
{
    if s.len() == 0 {
        Seq::empty()
    } else {
        let before = inl_cases(u, d, s.drop_last());
        let now = left_after_cases(d, s.drop_last());
        before.push((registers::put_expr(now, s.last().0), inl_list(u, now, s.last().1)))
    }
}

/// At most two.
pub open spec fn up_to_two(n: nat) -> int {
    if n < 2 {
        n as int
    } else {
        2
    }
}

/// The number that a tally gives a register.
pub open spec fn tallied(m: Map<u32, u8>, r: u32) -> int {
    if m.dom().contains(r) {
        m[r] as int
    } else {
        0
    }
}

fn add_one(m: &mut BTreeMap<u32, u8>, r: u32)
    requires
        tallied(old(m)@, r) <= 2,
    ensures
        forall|x: u32| #[trigger]
            tallied(final(m)@, x) == (if x == r && tallied(old(m)@, x) < 2 {
                tallied(old(m)@, x) + 1
            } else {
                tallied(old(m)@, x)
            }),
{
    broadcast use vstd::std_specs::btree::group_btree_axioms;

    let n: u8 = match m.get(&r) {
        Some(n) => *n,
        None => 0,
    };
    m.insert(
        r,
        if n < 2 {
            n + 1
        } else {
            2
        },
    );
}

/// The registers of a function with the number of their reads and of their writes, up to two.
pub struct UseCounter {
    pub uses: BTreeMap<u32, u8>,
    pub defs: BTreeMap<u32, u8>,
}

impl UseCounter {
    /// Whether the tallies are those of a function.
    pub open spec fn counts(&self, u: Usage) -> bool {
        &&& forall|r: u32| #[trigger]
            tallied(self.uses@, r) == up_to_two(occurs::count(u.atoms, Atom::Use(Val::Register(r))))
        &&& forall|r: u32| #[trigger]
            tallied(self.defs@, r) == up_to_two(
                occurs::count(u.atoms, Atom::WriteRegister(r)) + writes_in(u.visits, r),
            )
    }

    fn is_single(&self, Ghost(u): Ghost<Usage>, r: u32) -> (res: bool)
        requires
            self.counts(u),
        ensures
            res == single(u, r),
    {
        broadcast use vstd::std_specs::btree::group_btree_axioms;

        assert(tallied(self.uses@, r) == up_to_two(
            occurs::count(u.atoms, Atom::Use(Val::Register(r))),
        ));
        assert(tallied(self.defs@, r) == up_to_two(
            occurs::count(u.atoms, Atom::WriteRegister(r)) + writes_in(u.visits, r),
        ));
        let uses: u8 = match self.uses.get(&r) {
            Some(n) => *n,
            None => 0,
        };
        let defs: u8 = match self.defs.get(&r) {
            Some(n) => *n,
            None => 0,
        };
        uses == 1 && defs == 1
    }
}

fn count_uses(stmts: &Vec<Statement>) -> (c: UseCounter)
    ensures
        c.counts(usage(model::stmts(stmts@))),
{
    broadcast use vstd::std_specs::btree::group_btree_axioms;

    let ghost u = usage(model::stmts(stmts@));
    let v = occurs::of_stmts(stmts);
    let mut uses: BTreeMap<u32, u8> = BTreeMap::new();
    let mut defs: BTreeMap<u32, u8> = BTreeMap::new();
    let mut i: usize = 0;
    assert(u.atoms.take(0) =~= Seq::empty());
    while i < v.len()
        invariant
            i <= v.len(),
            u.atoms == occurs::occs(v@),
            forall|r: u32| #[trigger]
                tallied(uses@, r) == up_to_two(
                    occurs::count(u.atoms.take(i as int), Atom::Use(Val::Register(r))),
                ),
            forall|r: u32| #[trigger]
                tallied(defs@, r) == up_to_two(
                    occurs::count(u.atoms.take(i as int), Atom::WriteRegister(r)),
                ),
        decreases v.len() - i,
    {
        assert(u.atoms.take(i + 1).drop_last() =~= u.atoms.take(i as int));
        assert(u.atoms[i as int] == v@[i as int]@);
        assert(u.atoms.take(i + 1).last() == u.atoms[i as int]);
        match &v[i] {
            Occurrence::Use(Value::Register(r)) => {
                add_one(&mut uses, *r);
            },
            Occurrence::WriteRegister(r) => {
                add_one(&mut defs, *r);
            },
            _ => {},
        }
        i += 1;
    }
    assert(u.atoms.take(u.atoms.len() as int) =~= u.atoms);
    let es = visit::of_stmts(stmts);
    let mut k: usize = 0;
    assert(u.visits.take(0) =~= Seq::empty());
    while k < es.len()
        invariant
            k <= es.len(),
            u.visits == visit::seen(es@),
            forall|r: u32| #[trigger]
                tallied(defs@, r) == up_to_two(
                    occurs::count(u.atoms, Atom::WriteRegister(r)) + writes_in(
                        u.visits.take(k as int),
                        r,
                    ),
                ),
        decreases es.len() - k,
    {
        assert(u.visits.take(k + 1).drop_last() =~= u.visits.take(k as int));
        let e = es[k];
        assert(u.visits[k as int] == e@);
        assert(u.visits.take(k + 1).last() == e@);
        if let Some(r) = find_written(e) {
            add_one(&mut defs, r);
        }
        k += 1;
    }
    assert(u.visits.take(u.visits.len() as int) =~= u.visits);
    UseCounter { uses, defs }
}

fn stmt_uses(v: &Vec<Occurrence>, Ghost(s): Ghost<Stmt>, r: u32) -> (res: bool)
    requires
        occurs::occs(v@) == occurs::stmt_atoms(s),
    ensures
        res == mentions(s, r),
{
    occurs::has(v, &Occurrence::Use(Value::Register(r))) || occurs::has(
        v,
        &Occurrence::WriteRegister(r),
    )
}

fn stmt_writes(
    v: &Vec<Occurrence>,
    es: &Vec<&Expression>,
    Ghost(s): Ghost<Stmt>,
    r: u32,
) -> (res: bool)
    requires
        occurs::occs(v@) == occurs::stmt_atoms(s),
        visit::seen(es@) == visit::stmt_visits(s),
    ensures
        res == writes(s, r),
{
    if occurs::has(v, &Occurrence::WriteRegister(r)) {
        return true;
    }
    let ghost all = visit::seen(es@);
    let mut found: bool = false;
    let mut i: usize = 0;
    while i < es.len()
        invariant
            i <= es.len(),
            all == visit::seen(es@),
            found == (writes_in(all.take(i as int), r) > 0),
        decreases es.len() - i,
    {
        assert(all.take(i + 1).drop_last() =~= all.take(i as int));
        let e = es[i];
        assert(all[i as int] == e@);
        if let Some(x) = find_written(e) {
            if x == r {
                found = true;
            }
        }
        i += 1;
    }
    assert(all.take(all.len() as int) =~= all);
    found
}

fn stmt_redefines_source(
    v: &Vec<Occurrence>,
    es: &Vec<&Expression>,
    Ghost(s): Ghost<Stmt>,
    e: &Expression,
) -> (res: bool)
    requires
        occurs::occs(v@) == occurs::stmt_atoms(s),
        visit::seen(es@) == visit::stmt_visits(s),
    ensures
        res == redefines(s, e@),
{
    let read = occurs::of_expr(e);
    let ghost all = occurs::occs(read@);
    let mut found: bool = false;
    let mut i: usize = 0;
    while i < read.len()
        invariant
            i <= read.len(),
            all == occurs::occs(read@),
            occurs::occs(v@) == occurs::stmt_atoms(s),
            visit::seen(es@) == visit::stmt_visits(s),
            found == writes_one_of(s, all.take(i as int)),
        decreases read.len() - i,
    {
        assert(all.take(i + 1).drop_last() =~= all.take(i as int));
        assert(all[i as int] == read@[i as int]@);
        if let Occurrence::Use(Value::Register(r)) = &read[i] {
            if stmt_writes(v, es, Ghost(s), *r) {
                found = true;
            }
        }
        i += 1;
    }
    assert(all.take(all.len() as int) =~= all);
    found
}

/// The model of waiting assignments.
pub open spec fn waits(s: Seq<(u32, Statement, Expression)>) -> Seq<Waiting> {
    s.map_values(|w: (u32, Statement, Expression)| (w.0, w.1@, w.2@))
}

fn clone_map(m: &BTreeMap<u32, Expression>) -> (r: BTreeMap<u32, Expression>)
    ensures
        substitute::held(r@) == substitute::held(m@),
{
    broadcast use vstd::std_specs::btree::group_btree_axioms;

    let keys = crate::dict::keys_in_order(m);
    let ghost all = substitute::held(m@);
    let mut out: BTreeMap<u32, Expression> = BTreeMap::new();
    let mut i: usize = 0;
    while i < keys.len()
        invariant
            i <= keys.len(),
            all == substitute::held(m@),
            forall|k: u32| #[trigger] keys@.contains(k) <==> m@.dom().contains(k),
            forall|x: u32| #[trigger]
                substitute::held(out@).dom().contains(x) ==> all.dom().contains(x)
                    && substitute::held(out@)[x] == all[x],
            forall|n: int|
                0 <= n < i ==> substitute::held(out@).dom().contains(#[trigger] keys@[n]),
        decreases keys.len() - i,
    {
        broadcast use vstd::std_specs::btree::group_btree_axioms;

        let k: u32 = keys[i];
        assert(keys@.contains(k));
        if let Some(v) = m.get(&k) {
            let ghost before = substitute::held(out@);
            out.insert(k, v.clone());
            assert(all[k] == v@);
            assert(substitute::held(out@) =~= before.insert(k, v@));
        }
        i += 1;
    }
    assert forall|x: u32| all.dom().contains(x) implies substitute::held(out@).dom().contains(
        x,
    ) by {
        assert(keys@.contains(x));
        let n = choose|n: int| 0 <= n < keys@.len() && keys@[n] == x;
        assert(substitute::held(out@).dom().contains(keys@[n]));
    }
    assert(substitute::held(out@) =~= all);
    out
}

/// The state of the pass in executable form.
struct Conveyor {
    out: Vec<Statement>,
    pending: Vec<(u32, Statement, Expression)>,
}

impl Conveyor {
    closed spec fn view(&self) -> Line {
        Line { out: model::stmts(self.out@), pending: waits(self.pending@) }
    }

    /// Sorts the waiting assignments by what a statement does to them: their values are added to
    /// `known`, they are written out, or they wait on.
    fn sort(&mut self, s: &Statement, known: &mut BTreeMap<u32, Expression>)
        ensures
            final(self)@ == (Line {
                out: old(self)@.out + released(old(self)@.pending, s@),
                pending: waiting(old(self)@.pending, s@),
            }),
            substitute::held(final(known)@) == activated(
                old(self)@.pending,
                s@,
                substitute::held(old(known)@),
            ),
    {
        broadcast use vstd::std_specs::btree::group_btree_axioms;

        let ghost first = self@;
        let ghost d = substitute::held(known@);
        let ghost p = first.pending;
        let v = occurs::of_stmt(s);
        let es = visit::of_stmt(s);
        let acts: bool = effects::stmt_has_side_effects(s);
        let mut left: Vec<(u32, Statement, Expression)> = Vec::new();
        let mut i: usize = 0;
        assert(waits(left@) =~= Seq::empty());
        assert(first.out + released(p.take(0), s@) =~= first.out);
        assert(p.take(0) =~= Seq::empty());
        while i < self.pending.len()
            invariant
                i <= self.pending.len(),
                p == waits(self.pending@),
                occurs::occs(v@) == occurs::stmt_atoms(s@),
                visit::seen(es@) == visit::stmt_visits(s@),
                acts == effects::stmt_effects(s@),
                self@.pending == p,
                self@.out == first.out + released(p.take(i as int), s@),
                waits(left@) == waiting(p.take(i as int), s@),
                substitute::held(known@) == activated(p.take(i as int), s@, d),
            decreases self.pending.len() - i,
        {
            broadcast use vstd::std_specs::btree::group_btree_axioms;

            assert(p.take(i + 1).drop_last() =~= p.take(i as int));
            let ghost w = p[i as int];
            assert(p.take(i + 1).last() == w);
            let r: u32 = self.pending[i].0;
            let ghost before = self@.out;
            let ghost rel = released(p.take(i as int), s@);
            if stmt_uses(&v, Ghost(s@), r) {
                let ghost old_known = substitute::held(known@);
                known.insert(r, self.pending[i].2.clone());
                assert(substitute::held(known@) =~= old_known.insert(w.0, w.2));
            } else if acts || stmt_redefines_source(&v, &es, Ghost(s@), &self.pending[i].2) {
                let x = self.pending[i].1.clone();
                self.out.push(x);
                assert(self@.out =~= before.push(w.1));
                assert(first.out + rel.push(w.1) =~= (first.out + rel).push(w.1));
            } else {
                let ghost old_left = left@;
                left.push((r, self.pending[i].1.clone(), self.pending[i].2.clone()));
                assert(waits(left@) =~= waits(old_left).push(w));
            }
            i += 1;
        }
        assert(p.take(p.len() as int) =~= p);
        self.pending = left;
    }

    fn pass(&mut self, c: &UseCounter, Ghost(u): Ghost<Usage>, y: Statement)
        requires
            c.counts(u),
        ensures
            final(self)@ == (match propagate::assigned(y@) {
                Some(a) => if single(u, a.0) {
                    Line { out: old(self)@.out, pending: old(self)@.pending.push((a.0, y@, a.1)) }
                } else {
                    Line { out: old(self)@.out.push(y@), pending: old(self)@.pending }
                },
                None => Line { out: old(self)@.out.push(y@), pending: old(self)@.pending },
            }),
    {
        let ghost before = self@;
        let ghost x = y@;
        let wait: Option<(u32, Expression)> = match as_assigned(&y) {
            Some((r, v)) => if c.is_single(Ghost(u), r) {
                Some((r, v.clone()))
            } else {
                None
            },
            None => None,
        };
        match wait {
            Some((r, v)) => {
                let ghost e = v@;
                self.pending.push((r, y, v));
                assert(self@.pending =~= before.pending.push((r, x, e)));
            },
            None => {
                self.out.push(y);
                assert(self@.out =~= before.out.push(x));
            },
        }
    }

    fn finish(self) -> (r: Vec<Statement>)
        ensures
            model::stmts(r@) == self@.out + held_back(self@.pending),
    {
        let ghost p = self@.pending;
        let ghost first = self@.out;
        let Conveyor { out, pending } = self;
        let mut out = out;
        let mut i: usize = 0;
        assert(first + held_back(p).take(0) =~= first);
        while i < pending.len()
            invariant
                i <= pending.len(),
                p == waits(pending@),
                model::stmts(out@) == first + held_back(p).take(i as int),
            decreases pending.len() - i,
        {
            let ghost before = model::stmts(out@);
            let ghost h = held_back(p);
            assert(h[i as int] == pending@[i as int].1@);
            out.push(pending[i].1.clone());
            assert(model::stmts(out@) =~= before.push(h[i as int]));
            assert(h.take(i + 1) =~= h.take(i as int).push(h[i as int]));
            assert(first + h.take(i + 1) =~= (first + h.take(i as int)).push(h[i as int]));
            i += 1;
        }
        assert(held_back(p).take(p.len() as int) =~= held_back(p));
        out
    }
}

fn inline_list(
    c: &UseCounter,
    Ghost(u): Ghost<Usage>,
    d: &BTreeMap<u32, Expression>,
    v: &Vec<Statement>,
) -> (r: Vec<Statement>)
    requires
        c.counts(u),
    ensures
        model::stmts(r@) == inl_list(u, substitute::held(d@), model::stmts(v@)),
    decreases v, 1nat,
{
    let ghost s = model::stmts(v@);
    let ghost m = substitute::held(d@);
    let mut l = Conveyor { out: Vec::new(), pending: Vec::new() };
    assert(l@.out =~= Seq::empty());
    assert(l@.pending =~= Seq::empty());
    let mut i: usize = 0;
    assert(s.take(0) =~= Seq::empty());
    while i < v.len()
        invariant
            i <= v.len(),
            c.counts(u),
            s == model::stmts(v@),
            m == substitute::held(d@),
            l@ == inl_walk(u, m, s.take(i as int)),
        decreases v.len() - i,
    {
        let ghost t = s.take(i + 1);
        assert(t.drop_last() =~= s.take(i as int));
        assert(s[i as int] == v@[i as int]@);
        assert(t.last() == s[i as int]);
        assert(t.len() == i + 1);
        let ghost before = l@;
        let mut known: BTreeMap<u32, Expression> = if i == 0 {
            clone_map(d)
        } else {
            BTreeMap::new()
        };
        proof {
            if i > 0 {
                assert(substitute::held(known@) =~= Map::empty());
            }
        }
        l.sort(&v[i], &mut known);
        let y = inline_stmt(c, Ghost(u), &known, &v[i]);
        l.pass(c, Ghost(u), y);
        assert(l@ == passed(u, before, s[i as int], y@));
        i += 1;
    }
    assert(s.take(s.len() as int) =~= s);
    l.finish()
}

fn after_list(d: &BTreeMap<u32, Expression>, v: &Vec<Statement>) -> (r: BTreeMap<u32, Expression>)
    ensures
        substitute::held(r@) == left_after(substitute::held(d@), model::stmts(v@)),
{
    broadcast use vstd::std_specs::btree::group_btree_axioms;

    assert(model::stmts(v@).len() == v@.len());
    if v.len() == 0 {
        clone_map(d)
    } else {
        let r: BTreeMap<u32, Expression> = BTreeMap::new();
        assert(substitute::held(r@) =~= Map::empty());
        r
    }
}

fn after_stmt(d: &BTreeMap<u32, Expression>, s: &Statement) -> (r: BTreeMap<u32, Expression>)
    ensures
        substitute::held(r@) == left_after_stmt(substitute::held(d@), s@),
    decreases s,
{
    match s {
        Statement::If { then_body, else_body, .. } => after_list(
            &after_list(d, then_body),
            else_body,
        ),
        Statement::While { body, .. } => after_list(d, body),
        Statement::DoWhile { body, .. } => after_list(d, body),
        Statement::For { init, update, body, .. } => after_list(
            &after_opt(&after_opt(d, init), update),
            body,
        ),
        Statement::ForIn { body, .. } => after_list(d, body),
        Statement::ForOf { body, .. } => after_list(d, body),
        Statement::Block(body) => after_list(d, body),
        Statement::TryCatch { try_body, catch_body, finally_body, .. } => after_list(
            &after_list(&after_list(d, try_body), catch_body),
            finally_body,
        ),
        Statement::Switch { cases, default, .. } => match default {
            Some(b) => after_list(&after_cases(d, cases, cases.len()), b),
            None => after_cases(d, cases, cases.len()),
        },
        _ => clone_map(d),
    }
}

fn after_opt(
    d: &BTreeMap<u32, Expression>,
    o: &Option<Box<Statement>>,
) -> (r: BTreeMap<u32, Expression>)
    ensures
        substitute::held(r@) == left_after_opt(substitute::held(d@), model::opt_stmt(*o)),
    decreases o,
{
    match o {
        Some(s) => after_stmt(d, s),
        None => clone_map(d),
    }
}

fn after_cases(
    d: &BTreeMap<u32, Expression>,
    v: &Vec<(Expression, Vec<Statement>)>,
    n: usize,
) -> (r: BTreeMap<u32, Expression>)
    requires
        n <= v.len(),
    ensures
        substitute::held(r@) == left_after_cases(
            substitute::held(d@),
            model::case_arms(v@).take(n as int),
        ),
        n == v.len() ==> substitute::held(r@) == left_after_cases(
            substitute::held(d@),
            model::case_arms(v@),
        ),
{
    let ghost all = model::case_arms(v@);
    let mut cur = clone_map(d);
    let mut i: usize = 0;
    assert(all.take(0) =~= Seq::empty());
    while i < n
        invariant
            i <= n <= v.len(),
            all == model::case_arms(v@),
            substitute::held(cur@) == left_after_cases(substitute::held(d@), all.take(i as int)),
        decreases n - i,
    {
        assert(all.take(i + 1).drop_last() =~= all.take(i as int));
        assert(all[i as int] == model::case_arm(v@[i as int]));
        cur = after_list(&cur, &v[i].1);
        i += 1;
    }
    assert(all.take(all.len() as int) =~= all);
    cur
}

fn inline_opt(
    c: &UseCounter,
    Ghost(u): Ghost<Usage>,
    d: &BTreeMap<u32, Expression>,
    o: &Option<Box<Statement>>,
) -> (r: Option<Box<Statement>>)
    requires
        c.counts(u),
    ensures
        model::opt_stmt(r) == inl_opt(u, substitute::held(d@), model::opt_stmt(*o)),
    decreases o, 3nat,
{
    match o {
        Some(s) => Some(Box::new(inline_stmt(c, Ghost(u), d, s))),
        None => None,
    }
}

fn inline_cases(
    c: &UseCounter,
    Ghost(u): Ghost<Usage>,
    d: &BTreeMap<u32, Expression>,
    v: &Vec<(Expression, Vec<Statement>)>,
) -> (r: Vec<(Expression, Vec<Statement>)>)
    requires
        c.counts(u),
    ensures
        model::case_arms(r@) == inl_cases(u, substitute::held(d@), model::case_arms(v@)),
    decreases v, 3nat,
{
    let ghost all = model::case_arms(v@);
    let ghost m = substitute::held(d@);
    let mut out: Vec<(Expression, Vec<Statement>)> = Vec::new();
    let mut i: usize = 0;
    assert(model::case_arms(out@) =~= Seq::empty());
    while i < v.len()
        invariant
            i <= v.len(),
            c.counts(u),
            all == model::case_arms(v@),
            m == substitute::held(d@),
            model::case_arms(out@) == inl_cases(u, m, all.take(i as int)),
        decreases v.len() - i,
    {
        assert(all.take(i + 1).drop_last() =~= all.take(i as int));
        assert(all[i as int] == model::case_arm(v@[i as int]));
        let ghost before = out@;
        let now = after_cases(d, v, i);
        let test = place_expr(&now, &v[i].0);
        let body = inline_list(c, Ghost(u), &now, &v[i].1);
        let ghost made = (test@, model::stmts(body@));
        out.push((test, body));
        assert(model::case_arms(out@) =~= model::case_arms(before).push(made));
        i += 1;
    }
    assert(all.take(all.len() as int) =~= all);
    out
}

fn inline_stmt(
    c: &UseCounter,
    Ghost(u): Ghost<Usage>,
    d: &BTreeMap<u32, Expression>,
    s: &Statement,
) -> (r: Statement)
    requires
        c.counts(u),
    ensures
        r@ == inl_stmt(u, substitute::held(d@), s@),
    decreases s, 2nat,
{
    match s {
        Statement::If { condition, then_body, else_body } => Statement::If {
            condition: place_expr(d, condition),
            then_body: inline_list(c, Ghost(u), d, then_body),
            else_body: inline_list(c, Ghost(u), &after_list(d, then_body), else_body),
        },
        Statement::While { condition, body } => Statement::While {
            condition: place_expr(d, condition),
            body: inline_list(c, Ghost(u), d, body),
        },
        Statement::DoWhile { body, condition } => Statement::DoWhile {
            body: inline_list(c, Ghost(u), d, body),
            condition: place_expr(d, condition),
        },
        Statement::For { init, condition, update, body } => {
            let d1 = after_opt(d, init);
            let d2 = after_opt(&d1, update);
            Statement::For {
                init: inline_opt(c, Ghost(u), d, init),
                condition: place_opt_expr(&d1, condition),
                update: inline_opt(c, Ghost(u), &d1, update),
                body: inline_list(c, Ghost(u), &d2, body),
            }
        },
        Statement::ForIn { variable, object, body } => Statement::ForIn {
            variable: variable.clone(),
            object: place_expr(d, object),
            body: inline_list(c, Ghost(u), d, body),
        },
        Statement::ForOf { variable, iterable, body } => Statement::ForOf {
            variable: variable.clone(),
            iterable: place_expr(d, iterable),
            body: inline_list(c, Ghost(u), d, body),
        },
        Statement::Block(body) => Statement::Block(inline_list(c, Ghost(u), d, body)),
        Statement::TryCatch { try_body, catch_param, catch_body, finally_body } => {
            let d1 = after_list(d, try_body);
            let d2 = after_list(&d1, catch_body);
            Statement::TryCatch {
                try_body: inline_list(c, Ghost(u), d, try_body),
                catch_param: clone_opt_text(catch_param),
                catch_body: inline_list(c, Ghost(u), &d1, catch_body),
                finally_body: inline_list(c, Ghost(u), &d2, finally_body),
            }
        },
        Statement::Switch { discriminant, cases, default } => Statement::Switch {
            discriminant: place_expr(d, discriminant),
            cases: inline_cases(c, Ghost(u), d, cases),
            default: match default {
                Some(b) => Some(
                    inline_list(c, Ghost(u), &after_cases(d, cases, cases.len()), b),
                ),
                None => None,
            },
        },
        _ => place_stmt(d, s),
    }
}

/// Inlines the registers of a function that are assigned once and read once. An assignment waits
/// for the statement that uses it; it is written out before a statement with side effects, or one
/// that changes what its value reads, where that comes first. The value is known to the statement
/// that uses it as far as the first statement of a body in it.
pub fn inline_expressions(stmts: Vec<Statement>) -> (r: Vec<Statement>)
    ensures
        model::stmts(r@) == inl_list(
            usage(model::stmts(stmts@)),
            Map::empty(),
            model::stmts(stmts@),
        ),
{
    let ghost u = usage(model::stmts(stmts@));
    let c = count_uses(&stmts);
    let none: BTreeMap<u32, Expression> = BTreeMap::new();
    proof {
        broadcast use vstd::std_specs::btree::group_btree_axioms;

        assert(substitute::held(none@) =~= Map::empty());
    }
    inline_list(&c, Ghost(u), &none, &stmts)
}

/// A register that is assigned more than once is never inlined: its assignments stay where they
/// are.
pub proof fn lemma_reassigned_registers_stay(u: Usage, l: Line, x: Stmt, y: Stmt)
    requires
        propagate::assigned(y) matches Some(a) && !single(u, a.0),
    ensures
        passed(u, l, x, y).out == (l.out + released(l.pending, x)).push(y),
{
}

/// An assignment that waits is, at the next statement, handed to it with its value, written before
/// it, or waits on.
pub proof fn lemma_waiting_is_settled(p: Seq<Waiting>, x: Stmt, d: Map<u32, Expr>, i: int)
    requires
        0 <= i < p.len(),
    ensures
        ({
            ||| mentions(x, p[i].0) && activated(p, x, d).dom().contains(p[i].0)
            ||| released(p, x).contains(p[i].1)
            ||| waiting(p, x).contains(p[i])
        }),
    decreases p.len(),
{
    let t = p.drop_last();
    if i == p.len() - 1 {
        if must_go(p[i], x) {
            let r = released(p, x);
            assert(r[r.len() - 1] == p[i].1);
        } else if !mentions(x, p[i].0) {
            let w = waiting(p, x);
            assert(w[w.len() - 1] == p[i]);
        }
    } else {
        assert(t[i] == p[i]);
        lemma_waiting_is_settled(t, x, d, i);
        if released(t, x).contains(p[i].1) {
            let k = choose|k: int| 0 <= k < released(t, x).len() && released(t, x)[k] == p[i].1;
            assert(released(p, x)[k] == p[i].1);
        }
        if waiting(t, x).contains(p[i]) {
            let k = choose|k: int| 0 <= k < waiting(t, x).len() && waiting(t, x)[k] == p[i];
            assert(waiting(p, x)[k] == p[i]);
        }
    }
}

} // verus!
