//! Where the variables of a function are read and written.

use crate::dict::NameSet;
use crate::ir::model;
use crate::ir::model::{Expr, Stmt, Target, Val};
use crate::ir::occurs;
use crate::ir::occurs::{Atom, Occurrence};
use crate::ir::{AssignTarget, Expression, Statement, Value};
use crate::names;
use crate::text;
use vstd::prelude::*;

verus! {

/// A statement and those inside its bodies, each with whether it stands in the body of a loop.
pub open spec fn scoped_stmt(s: Stmt, l: bool) -> Seq<(Stmt, bool)>
    decreases s,
{
    seq![(s, l)] + match s {
        Stmt::While { body, .. } => scoped(body, true),
        Stmt::DoWhile { body, .. } => scoped(body, true),
        Stmt::For { body, .. } => scoped(body, true),
        Stmt::ForIn { body, .. } => scoped(body, true),
        Stmt::ForOf { body, .. } => scoped(body, true),
        Stmt::If { then_body, else_body, .. } => scoped(then_body, l) + scoped(else_body, l),
        Stmt::Block(body) => scoped(body, l),
        Stmt::TryCatch { try_body, catch_body, finally_body, .. } => scoped(try_body, l) + scoped(
            catch_body,
            l,
        ) + scoped(finally_body, l),
        Stmt::Switch { cases, default, .. } => scoped_cases(cases, l) + scoped_default(default, l),
        _ => Seq::empty(),
    }
}

/// The statements of a list and those inside their bodies.
pub open spec fn scoped(s: Seq<Stmt>, l: bool) -> Seq<(Stmt, bool)>
    decreases s,
{
    if s.len() == 0 {
        Seq::empty()
    } else {
        scoped(s.drop_last(), l) + scoped_stmt(s.last(), l)
    }
}

pub open spec fn scoped_default(o: Option<Seq<Stmt>>, l: bool) -> Seq<(Stmt, bool)>
    decreases o,
{
    match o {
        Some(s) => scoped(s, l),
        None => Seq::empty(),
    }
}

pub open spec fn scoped_cases(s: Seq<(Expr, Seq<Stmt>)>, l: bool) -> Seq<(Stmt, bool)>
    decreases s,
{
    if s.len() == 0 {
        Seq::empty()
    } else {
        scoped_cases(s.drop_last(), l) + scoped(s.last().1, l)
    }
}

/// The models of statements with their flags.
pub open spec fn flagged(s: Seq<(&Statement, bool)>) -> Seq<(Stmt, bool)> {
    s.map_values(|p: (&Statement, bool)| (p.0@, p.1))
}

proof fn lemma_add_assoc<A>(a: Seq<A>, b: Seq<A>, c: Seq<A>)
    ensures
        (a + b) + c == a + (b + c),
{
    assert((a + b) + c =~= a + (b + c));
}

fn push_stmt<'a>(s: &'a Statement, l: bool, out: &mut Vec<(&'a Statement, bool)>)
    ensures
        flagged(final(out)@) == flagged(old(out)@) + scoped_stmt(s@, l),
    decreases s,
{
    let ghost before = flagged(out@);
    out.push((s, l));
    let ghost head = before + seq![(s@, l)];
    assert(flagged(out@) =~= head);
    match s {
        Statement::While { body, .. } => {
            push_list(body, true, out);
            proof {
                lemma_add_assoc(before, seq![(s@, l)], scoped(model::stmts(body@), true));
            }
        },
        Statement::DoWhile { body, .. } => {
            push_list(body, true, out);
            proof {
                lemma_add_assoc(before, seq![(s@, l)], scoped(model::stmts(body@), true));
            }
        },
        Statement::For { body, .. } => {
            push_list(body, true, out);
            proof {
                lemma_add_assoc(before, seq![(s@, l)], scoped(model::stmts(body@), true));
            }
        },
        Statement::ForIn { body, .. } => {
            push_list(body, true, out);
            proof {
                lemma_add_assoc(before, seq![(s@, l)], scoped(model::stmts(body@), true));
            }
        },
        Statement::ForOf { body, .. } => {
            push_list(body, true, out);
            proof {
                lemma_add_assoc(before, seq![(s@, l)], scoped(model::stmts(body@), true));
            }
        },
        Statement::If { then_body, else_body, .. } => {
            push_list(then_body, l, out);
            push_list(else_body, l, out);
            proof {
                let a = scoped(model::stmts(then_body@), l);
                let b = scoped(model::stmts(else_body@), l);
                lemma_add_assoc(head, a, b);
                lemma_add_assoc(before, seq![(s@, l)], a + b);
            }
        },
        Statement::Block(body) => {
            push_list(body, l, out);
            proof {
                lemma_add_assoc(before, seq![(s@, l)], scoped(model::stmts(body@), l));
            }
        },
        Statement::TryCatch { try_body, catch_body, finally_body, .. } => {
            push_list(try_body, l, out);
            push_list(catch_body, l, out);
            push_list(finally_body, l, out);
            proof {
                let a = scoped(model::stmts(try_body@), l);
                let b = scoped(model::stmts(catch_body@), l);
                let c = scoped(model::stmts(finally_body@), l);
                lemma_add_assoc(head, a, b);
                lemma_add_assoc(head, a + b, c);
                lemma_add_assoc(before, seq![(s@, l)], a + b + c);
            }
        },
        Statement::Switch { cases, default, .. } => {
            push_cases(cases, l, out);
            if let Some(d) = default {
                push_list(d, l, out);
            } else {
                assert(flagged(out@) =~= flagged(out@) + Seq::empty());
            }
            proof {
                let a = scoped_cases(model::case_arms(cases@), l);
                let b = scoped_default(model::opt_stmts(*default), l);
                lemma_add_assoc(head, a, b);
                lemma_add_assoc(before, seq![(s@, l)], a + b);
            }
        },
        _ => {
            assert(scoped_stmt(s@, l) =~= seq![(s@, l)]);
        },
    }
}

fn push_cases<'a>(
    v: &'a Vec<(Expression, Vec<Statement>)>,
    l: bool,
    out: &mut Vec<(&'a Statement, bool)>,
)
    ensures
        flagged(final(out)@) == flagged(old(out)@) + scoped_cases(model::case_arms(v@), l),
    decreases v,
{
    let ghost all = model::case_arms(v@);
    let ghost first = flagged(out@);
    let mut i: usize = 0;
    assert(first + scoped_cases(all.take(0), l) =~= first);
    while i < v.len()
        invariant
            i <= v.len(),
            all == model::case_arms(v@),
            flagged(out@) == first + scoped_cases(all.take(i as int), l),
        decreases v.len() - i,
    {
        assert(all.take(i + 1).drop_last() =~= all.take(i as int));
        assert(all[i as int] == model::case_arm(v@[i as int]));
        push_list(&v[i].1, l, out);
        proof {
            lemma_add_assoc(first, scoped_cases(all.take(i as int), l), scoped(all[i as int].1, l));
        }
        i += 1;
    }
    assert(all.take(all.len() as int) =~= all);
}

fn push_list<'a>(v: &'a Vec<Statement>, l: bool, out: &mut Vec<(&'a Statement, bool)>)
    ensures
        flagged(final(out)@) == flagged(old(out)@) + scoped(model::stmts(v@), l),
    decreases v,
{
    let ghost all = model::stmts(v@);
    let ghost first = flagged(out@);
    let mut i: usize = 0;
    assert(first + scoped(all.take(0), l) =~= first);
    while i < v.len()
        invariant
            i <= v.len(),
            all == model::stmts(v@),
            flagged(out@) == first + scoped(all.take(i as int), l),
        decreases v.len() - i,
    {
        assert(all.take(i + 1).drop_last() =~= all.take(i as int));
        push_stmt(&v[i], l, out);
        proof {
            lemma_add_assoc(first, scoped(all.take(i as int), l), scoped_stmt(all[i as int], l));
        }
        i += 1;
    }
    assert(all.take(all.len() as int) =~= all);
}

/// The statements of a function with whether each stands in the body of a loop.
pub fn scope_list<'a>(v: &'a Vec<Statement>) -> (r: Vec<(&'a Statement, bool)>)
    ensures
        flagged(r@) == scoped(model::stmts(v@), false),
{
    let mut out: Vec<(&'a Statement, bool)> = Vec::new();
    push_list(v, false, &mut out);
    assert(flagged(out@) =~= scoped(model::stmts(v@), false));
    out
}

/// Whether a target is a destructuring pattern.
pub open spec fn pattern(t: Target) -> bool {
    t is DestructuringArray || t is DestructuringArrayRest || t is DestructuringObject
        || t is DestructuringObjectRest
}

pub fn is_pattern(t: &AssignTarget) -> (r: bool)
    ensures
        r == pattern(t@),
{
    match t {
        AssignTarget::DestructuringArray(_) => true,
        AssignTarget::DestructuringArrayRest { .. } => true,
        AssignTarget::DestructuringObject(_) => true,
        AssignTarget::DestructuringObjectRest { .. } => true,
        _ => false,
    }
}

/// Whether a statement binds a name by a pattern.
pub open spec fn binds(s: Stmt, n: Seq<char>) -> bool {
    match s {
        Stmt::Assign { target, .. } => pattern(target) && occurs::target_atoms(target).contains(
            Atom::WriteVariable(n),
        ),
        _ => false,
    }
}

/// Whether a statement declares a name, by itself or by a pattern.
pub open spec fn declares(s: Stmt, n: Seq<char>) -> bool {
    match s {
        Stmt::Let { name, .. } => name == n,
        _ => binds(s, n),
    }
}

/// Whether a statement assigns a variable.
pub open spec fn assigns(s: Stmt, n: Seq<char>) -> bool {
    s matches Stmt::Assign { target: Target::Variable(x), .. } && x == n
}

/// What occurs in a statement outside its bodies.
pub open spec fn own_atoms(s: Stmt) -> Seq<Atom> {
    match s {
        Stmt::If { condition, .. } => occurs::expr_atoms(condition),
        Stmt::While { condition, .. } => occurs::expr_atoms(condition),
        Stmt::DoWhile { condition, .. } => occurs::expr_atoms(condition),
        Stmt::For { init, condition, update, .. } => occurs::opt_stmt_atoms(init)
            + occurs::opt_expr_atoms(condition) + occurs::opt_stmt_atoms(update),
        Stmt::ForIn { object, .. } => occurs::expr_atoms(object),
        Stmt::ForOf { iterable, .. } => occurs::expr_atoms(iterable),
        Stmt::Block(_) => Seq::empty(),
        Stmt::TryCatch { .. } => Seq::empty(),
        Stmt::Switch { discriminant, .. } => occurs::expr_atoms(discriminant),
        _ => occurs::stmt_atoms(s),
    }
}

/// The name that an occurrence refers to.
pub open spec fn referred(a: Atom) -> Option<Seq<char>> {
    match a {
        Atom::Use(Val::Variable(n)) => Some(n),
        Atom::WriteVariable(n) => Some(n),
        Atom::Declare(n) => Some(n),
        _ => None,
    }
}

/// Whether a statement refers to a name outside its bodies.
pub open spec fn refers(s: Stmt, n: Seq<char>) -> bool {
    exists|i: int| 0 <= i < own_atoms(s).len() && #[trigger] referred(own_atoms(s)[i]) == Some(n)
}

pub fn own_occurrences(s: &Statement) -> (r: Vec<Occurrence>)
    ensures
        occurs::occs(r@) == own_atoms(s@),
{
    let mut none: Vec<Occurrence> = Vec::new();
    assert(occurs::occs(none@) =~= Seq::empty());
    match s {
        Statement::If { condition, .. } => occurs::of_expr(condition),
        Statement::While { condition, .. } => occurs::of_expr(condition),
        Statement::DoWhile { condition, .. } => occurs::of_expr(condition),
        Statement::For { init, condition, update, .. } => {
            if let Some(x) = init {
                let mut v = occurs::of_stmt(x);
                none.append(&mut v);
                assert(occurs::occs(none@) =~= occurs::opt_stmt_atoms(model::opt_stmt(*init)));
            }
            let ghost a = occurs::occs(none@);
            assert(a =~= occurs::opt_stmt_atoms(model::opt_stmt(*init)));
            if let Some(x) = condition {
                let mut v = occurs::of_expr(x);
                none.append(&mut v);
                assert(occurs::occs(none@) =~= a + occurs::opt_expr_atoms(
                    model::opt_expr(*condition),
                ));
            }
            let ghost b = occurs::occs(none@);
            assert(b =~= a + occurs::opt_expr_atoms(model::opt_expr(*condition)));
            if let Some(x) = update {
                let mut v = occurs::of_stmt(x);
                none.append(&mut v);
                assert(occurs::occs(none@) =~= b + occurs::opt_stmt_atoms(
                    model::opt_stmt(*update),
                ));
            }
            assert(occurs::occs(none@) =~= b + occurs::opt_stmt_atoms(model::opt_stmt(*update)));
            none
        },
        Statement::ForIn { object, .. } => occurs::of_expr(object),
        Statement::ForOf { iterable, .. } => occurs::of_expr(iterable),
        Statement::Block(_) => none,
        Statement::TryCatch { .. } => none,
        Statement::Switch { discriminant, .. } => occurs::of_expr(discriminant),
        _ => occurs::of_stmt(s),
    }
}

fn as_referred(o: &Occurrence) -> (r: Option<&String>)
    ensures
        match r {
            Some(n) => referred(o@) == Some(n@),
            None => referred(o@) is None,
        },
{
    match o {
        Occurrence::Use(Value::Variable(n)) => Some(n),
        Occurrence::WriteVariable(n) => Some(n),
        Occurrence::Declare(n) => Some(n),
        _ => None,
    }
}

/// The variables of a function by where they are assigned, referred to and declared.
pub struct ScopeInfo {
    pub in_loop: NameSet,
    pub out_loop: NameSet,
    pub referred_out: NameSet,
    pub declared: NameSet,
    pub lets: NameSet,
}

/// Whether some statement with the flag `l` assigns a variable.
pub open spec fn assigned_at(s: Seq<(Stmt, bool)>, l: bool, n: Seq<char>) -> bool
    decreases s.len(),
{
    s.len() > 0 && (assigned_at(s.drop_last(), l, n) || (s.last().1 == l && assigns(s.last().0, n)))
}

/// Whether some statement outside the bodies of loops refers to a name.
pub open spec fn referred_at(s: Seq<(Stmt, bool)>, n: Seq<char>) -> bool
    decreases s.len(),
{
    s.len() > 0 && (referred_at(s.drop_last(), n) || (!s.last().1 && refers(s.last().0, n)))
}

/// Whether some statement declares a name.
pub open spec fn declared_at(s: Seq<(Stmt, bool)>, n: Seq<char>) -> bool
    decreases s.len(),
{
    s.len() > 0 && (declared_at(s.drop_last(), n) || declares(s.last().0, n))
}

/// Whether some statement is a declaration of a name by itself.
pub open spec fn let_at(s: Seq<(Stmt, bool)>, n: Seq<char>) -> bool
    decreases s.len(),
{
    s.len() > 0 && (let_at(s.drop_last(), n) || (s.last().0 matches Stmt::Let { name, .. } && name
        == n))
}

fn add_references(s: &Statement, out: &mut NameSet)
    ensures
        forall|n: Seq<char>| #[trigger]
            final(out)@.contains(n) <==> old(out)@.contains(n) || refers(s@, n),
{
    let v = own_occurrences(s);
    let ghost all = own_atoms(s@);
    let ghost first = out@;
    let mut i: usize = 0;
    while i < v.len()
        invariant
            i <= v.len(),
            all == occurs::occs(v@),
            forall|n: Seq<char>| #[trigger]
                out@.contains(n) <==> first.contains(n) || exists|k: int|
                    0 <= k < i && #[trigger] referred(all[k]) == Some(n),
        decreases v.len() - i,
    {
        assert(all[i as int] == v@[i as int]@);
        if let Some(n) = as_referred(&v[i]) {
            out.insert(n);
            assert(referred(all[i as int]) == Some(n@));
        }
        i += 1;
    }
}

fn add_pattern_names(t: &AssignTarget, out: &mut NameSet)
    ensures
        forall|n: Seq<char>| #[trigger]
            final(out)@.contains(n) <==> old(out)@.contains(n) || occurs::target_atoms(
                t@,
            ).contains(Atom::WriteVariable(n)),
{
    let v = occurs::of_target(t);
    let ghost all = occurs::target_atoms(t@);
    let ghost first = out@;
    let mut i: usize = 0;
    while i < v.len()
        invariant
            i <= v.len(),
            all == occurs::occs(v@),
            forall|n: Seq<char>| #[trigger]
                out@.contains(n) <==> first.contains(n) || exists|k: int|
                    0 <= k < i && #[trigger] all[k] == Atom::WriteVariable(n),
        decreases v.len() - i,
    {
        assert(all[i as int] == v@[i as int]@);
        if let Occurrence::WriteVariable(n) = &v[i] {
            out.insert(n);
            assert(all[i as int] == Atom::WriteVariable(n@));
        }
        i += 1;
    }
    assert forall|n: Seq<char>| all.contains(Atom::WriteVariable(n)) <==> exists|k: int|
        0 <= k < all.len() && #[trigger] all[k] == Atom::WriteVariable(n) by {}
}

/// Sorts the variables of a function by where they are assigned, referred to and declared.
pub fn collect_scope_info(list: &Vec<(&Statement, bool)>) -> (r: ScopeInfo)
    ensures
        forall|n: Seq<char>| #[trigger]
            r.in_loop@.contains(n) <==> assigned_at(flagged(list@), true, n),
        forall|n: Seq<char>| #[trigger]
            r.out_loop@.contains(n) <==> assigned_at(flagged(list@), false, n),
        forall|n: Seq<char>| #[trigger]
            r.referred_out@.contains(n) <==> referred_at(flagged(list@), n),
        forall|n: Seq<char>| #[trigger]
            r.declared@.contains(n) <==> declared_at(flagged(list@), n),
        forall|n: Seq<char>| #[trigger] r.lets@.contains(n) <==> let_at(flagged(list@), n),
{
    let ghost all = flagged(list@);
    let mut r = ScopeInfo {
        in_loop: NameSet::new(),
        out_loop: NameSet::new(),
        referred_out: NameSet::new(),
        declared: NameSet::new(),
        lets: NameSet::new(),
    };
    let mut i: usize = 0;
    assert(all.take(0) =~= Seq::empty());
    while i < list.len()
        invariant
            i <= list.len(),
            all == flagged(list@),
            forall|n: Seq<char>| #[trigger]
                r.in_loop@.contains(n) <==> assigned_at(all.take(i as int), true, n),
            forall|n: Seq<char>| #[trigger]
                r.out_loop@.contains(n) <==> assigned_at(all.take(i as int), false, n),
            forall|n: Seq<char>| #[trigger]
                r.referred_out@.contains(n) <==> referred_at(all.take(i as int), n),
            forall|n: Seq<char>| #[trigger]
                r.declared@.contains(n) <==> declared_at(all.take(i as int), n),
            forall|n: Seq<char>| #[trigger] r.lets@.contains(n) <==> let_at(all.take(i as int), n),
        decreases list.len() - i,
    {
        let ghost t = all.take(i + 1);
        assert(t.drop_last() =~= all.take(i as int));
        let (s, l) = list[i];
        assert(all[i as int] == (s@, l));
        assert(t.last() == (s@, l));
        match s {
            Statement::Assign { target: AssignTarget::Variable(n), .. } => {
                if l {
                    r.in_loop.insert(n);
                } else {
                    r.out_loop.insert(n);
                }
            },
            Statement::Assign { target, .. } => {
                if is_pattern(target) {
                    add_pattern_names(target, &mut r.declared);
                }
            },
            Statement::Let { name, .. } => {
                r.declared.insert(name);
                r.lets.insert(name);
            },
            _ => {},
        }
        if !l {
            add_references(s, &mut r.referred_out);
        }
        i += 1;
    }
    assert(all.take(all.len() as int) =~= all);
    r
}

/// A first look at a name: the name, and whether it is read there.
pub type Glance = (Seq<char>, bool);

/// The reads and writes of variables among occurrences.
pub open spec fn glances(s: Seq<Atom>) -> Seq<Glance>
    decreases s.len(),
{
    if s.len() == 0 {
        Seq::empty()
    } else {
        let before = glances(s.drop_last());
        match s.last() {
            Atom::Use(Val::Variable(n)) => before.push((n, true)),
            Atom::WriteVariable(n) => before.push((n, false)),
            _ => before,
        }
    }
}

/// The reads and writes of variables in a statement, in the order of the text, an assignment's
/// value before its target.
pub open spec fn looks_stmt(s: Stmt) -> Seq<Glance>
    decreases s,
{
    match s {
        Stmt::Assign { target, value } => glances(occurs::expr_atoms(value)) + glances(
            occurs::target_atoms(target),
        ),
        Stmt::Let { name, value, .. } => glances(occurs::expr_atoms(value)) + seq![(name, false)],
        Stmt::If { condition, then_body, else_body } => glances(occurs::expr_atoms(condition))
            + looks(then_body) + looks(else_body),
        Stmt::While { condition, body } => glances(occurs::expr_atoms(condition)) + looks(body),
        Stmt::DoWhile { body, condition } => looks(body) + glances(occurs::expr_atoms(condition)),
        Stmt::For { init, condition, update, body } => looks_opt(init) + glances(
            occurs::opt_expr_atoms(condition),
        ) + looks_opt(update) + looks(body),
        Stmt::ForIn { variable, object, body } => glances(occurs::expr_atoms(object)) + seq![
            (variable, false),
        ] + looks(body),
        Stmt::ForOf { variable, iterable, body } => glances(occurs::expr_atoms(iterable)) + seq![
            (variable, false),
        ] + looks(body),
        Stmt::Block(body) => looks(body),
        Stmt::TryCatch { try_body, catch_body, finally_body, .. } => looks(try_body) + looks(
            catch_body,
        ) + looks(finally_body),
        Stmt::Switch { discriminant, cases, default } => glances(occurs::expr_atoms(discriminant))
            + looks_cases(cases) + looks_default(default),
        _ => glances(occurs::stmt_atoms(s)),
    }
}

pub open spec fn looks(s: Seq<Stmt>) -> Seq<Glance>
    decreases s,
{
    if s.len() == 0 {
        Seq::empty()
    } else {
        looks(s.drop_last()) + looks_stmt(s.last())
    }
}

pub open spec fn looks_opt(o: Option<Box<Stmt>>) -> Seq<Glance>
    decreases o,
{
    match o {
        Some(s) => looks_stmt(*s),
        None => Seq::empty(),
    }
}

pub open spec fn looks_default(o: Option<Seq<Stmt>>) -> Seq<Glance>
    decreases o,
{
    match o {
        Some(s) => looks(s),
        None => Seq::empty(),
    }
}

pub open spec fn looks_cases(s: Seq<(Expr, Seq<Stmt>)>) -> Seq<Glance>
    decreases s,
{
    if s.len() == 0 {
        Seq::empty()
    } else {
        looks_cases(s.drop_last()) + (glances(occurs::expr_atoms(s.last().0)) + looks(s.last().1))
    }
}

/// Whether the first look at a name is a read.
pub open spec fn read_first(s: Seq<Glance>, n: Seq<char>) -> Option<bool>
    decreases s.len(),
{
    if s.len() == 0 {
        None
    } else {
        match read_first(s.drop_last(), n) {
            Some(b) => Some(b),
            None => if s.last().0 == n {
                Some(s.last().1)
            } else {
                None
            },
        }
    }
}

/// The variables that a function reads before it writes them: they are captured from outside.
pub open spec fn free_variable(s: Seq<Stmt>, n: Seq<char>) -> bool {
    names::valid_identifier(n) && read_first(looks(s), n) == Some(true)
}

/// The model of looks at names.
pub open spec fn seen(s: Seq<(String, bool)>) -> Seq<Glance> {
    s.map_values(|p: (String, bool)| (p.0@, p.1))
}

fn note(out: &mut Vec<(String, bool)>, v: &Vec<Occurrence>)
    ensures
        seen(final(out)@) == seen(old(out)@) + glances(occurs::occs(v@)),
{
    let ghost all = occurs::occs(v@);
    let ghost first = seen(out@);
    let mut i: usize = 0;
    assert(first + glances(all.take(0)) =~= first);
    while i < v.len()
        invariant
            i <= v.len(),
            all == occurs::occs(v@),
            seen(out@) == first + glances(all.take(i as int)),
        decreases v.len() - i,
    {
        assert(all.take(i + 1).drop_last() =~= all.take(i as int));
        assert(all[i as int] == v@[i as int]@);
        let ghost before = seen(out@);
        let ghost g = glances(all.take(i as int));
        match &v[i] {
            Occurrence::Use(Value::Variable(n)) => {
                out.push((n.clone(), true));
                assert(seen(out@) =~= before.push((n@, true)));
                assert(first + g.push((n@, true)) =~= (first + g).push((n@, true)));
            },
            Occurrence::WriteVariable(n) => {
                out.push((n.clone(), false));
                assert(seen(out@) =~= before.push((n@, false)));
                assert(first + g.push((n@, false)) =~= (first + g).push((n@, false)));
            },
            _ => {},
        }
        i += 1;
    }
    assert(all.take(all.len() as int) =~= all);
}

fn note_name(out: &mut Vec<(String, bool)>, n: &String)
    ensures
        seen(final(out)@) == seen(old(out)@) + seq![(n@, false)],
{
    let ghost before = seen(out@);
    out.push((n.clone(), false));
    assert(seen(out@) =~= before + seq![(n@, false)]);
}

fn scan_stmt(s: &Statement, out: &mut Vec<(String, bool)>)
    ensures
        seen(final(out)@) == seen(old(out)@) + looks_stmt(s@),
    decreases s,
{
    let ghost z = seen(out@);
    match s {
        Statement::Assign { target, value } => {
            note(out, &occurs::of_expr(value));
            note(out, &occurs::of_target(target));
            proof {
                lemma_add_assoc(
                    z,
                    glances(occurs::expr_atoms(value@)),
                    glances(occurs::target_atoms(target@)),
                );
            }
        },
        Statement::Let { name, value, .. } => {
            note(out, &occurs::of_expr(value));
            note_name(out, name);
            proof {
                lemma_add_assoc(z, glances(occurs::expr_atoms(value@)), seq![(name@, false)]);
            }
        },
        Statement::If { condition, then_body, else_body } => {
            note(out, &occurs::of_expr(condition));
            scan_first_use(then_body, out);
            scan_first_use(else_body, out);
            proof {
                let a = glances(occurs::expr_atoms(condition@));
                let b = looks(model::stmts(then_body@));
                let c = looks(model::stmts(else_body@));
                lemma_add_assoc(z, a, b);
                lemma_add_assoc(z, a + b, c);
            }
        },
        Statement::While { condition, body } => {
            note(out, &occurs::of_expr(condition));
            scan_first_use(body, out);
            proof {
                lemma_add_assoc(
                    z,
                    glances(occurs::expr_atoms(condition@)),
                    looks(model::stmts(body@)),
                );
            }
        },
        Statement::DoWhile { body, condition } => {
            scan_first_use(body, out);
            note(out, &occurs::of_expr(condition));
            proof {
                lemma_add_assoc(
                    z,
                    looks(model::stmts(body@)),
                    glances(occurs::expr_atoms(condition@)),
                );
            }
        },
        Statement::For { init, condition, update, body } => {
            scan_opt(init, out);
            if let Some(e) = condition {
                note(out, &occurs::of_expr(e));
            } else {
                assert(glances(Seq::<Atom>::empty()) =~= Seq::empty());
                assert(seen(out@) =~= seen(out@) + Seq::empty());
            }
            scan_opt(update, out);
            scan_first_use(body, out);
            proof {
                let a = looks_opt(model::opt_stmt(*init));
                let b = glances(occurs::opt_expr_atoms(model::opt_expr(*condition)));
                let c = looks_opt(model::opt_stmt(*update));
                let d = looks(model::stmts(body@));
                lemma_add_assoc(z, a, b);
                lemma_add_assoc(z, a + b, c);
                lemma_add_assoc(z, a + b + c, d);
            }
        },
        Statement::ForIn { variable, object, body } => {
            note(out, &occurs::of_expr(object));
            note_name(out, variable);
            scan_first_use(body, out);
            proof {
                let a = glances(occurs::expr_atoms(object@));
                let b = seq![(variable@, false)];
                lemma_add_assoc(z, a, b);
                lemma_add_assoc(z, a + b, looks(model::stmts(body@)));
            }
        },
        Statement::ForOf { variable, iterable, body } => {
            note(out, &occurs::of_expr(iterable));
            note_name(out, variable);
            scan_first_use(body, out);
            proof {
                let a = glances(occurs::expr_atoms(iterable@));
                let b = seq![(variable@, false)];
                lemma_add_assoc(z, a, b);
                lemma_add_assoc(z, a + b, looks(model::stmts(body@)));
            }
        },
        Statement::Block(body) => scan_first_use(body, out),
        Statement::TryCatch { try_body, catch_body, finally_body, .. } => {
            scan_first_use(try_body, out);
            scan_first_use(catch_body, out);
            scan_first_use(finally_body, out);
            proof {
                let a = looks(model::stmts(try_body@));
                let b = looks(model::stmts(catch_body@));
                let c = looks(model::stmts(finally_body@));
                lemma_add_assoc(z, a, b);
                lemma_add_assoc(z, a + b, c);
            }
        },
        Statement::Switch { discriminant, cases, default } => {
            note(out, &occurs::of_expr(discriminant));
            scan_cases(cases, out);
            if let Some(d) = default {
                scan_first_use(d, out);
            } else {
                assert(seen(out@) =~= seen(out@) + Seq::empty());
            }
            proof {
                let a = glances(occurs::expr_atoms(discriminant@));
                let b = looks_cases(model::case_arms(cases@));
                let c = looks_default(model::opt_stmts(*default));
                lemma_add_assoc(z, a, b);
                lemma_add_assoc(z, a + b, c);
            }
        },
        _ => note(out, &occurs::of_stmt(s)),
    }
}

fn scan_opt(o: &Option<Box<Statement>>, out: &mut Vec<(String, bool)>)
    ensures
        seen(final(out)@) == seen(old(out)@) + looks_opt(model::opt_stmt(*o)),
    decreases o,
{
    match o {
        Some(s) => scan_stmt(s, out),
        None => {
            assert(seen(out@) =~= seen(out@) + Seq::empty());
        },
    }
}

fn scan_cases(v: &Vec<(Expression, Vec<Statement>)>, out: &mut Vec<(String, bool)>)
    ensures
        seen(final(out)@) == seen(old(out)@) + looks_cases(model::case_arms(v@)),
    decreases v,
{
    let ghost all = model::case_arms(v@);
    let ghost first = seen(out@);
    let mut i: usize = 0;
    assert(first + looks_cases(all.take(0)) =~= first);
    while i < v.len()
        invariant
            i <= v.len(),
            all == model::case_arms(v@),
            seen(out@) == first + looks_cases(all.take(i as int)),
        decreases v.len() - i,
    {
        assert(all.take(i + 1).drop_last() =~= all.take(i as int));
        assert(all[i as int] == model::case_arm(v@[i as int]));
        let ghost z = seen(out@);
        note(out, &occurs::of_expr(&v[i].0));
        scan_first_use(&v[i].1, out);
        proof {
            let a = glances(occurs::expr_atoms(all[i as int].0));
            let b = looks(all[i as int].1);
            lemma_add_assoc(z, a, b);
            lemma_add_assoc(first, looks_cases(all.take(i as int)), a + b);
        }
        i += 1;
    }
    assert(all.take(all.len() as int) =~= all);
}

fn scan_first_use(v: &Vec<Statement>, out: &mut Vec<(String, bool)>)
    ensures
        seen(final(out)@) == seen(old(out)@) + looks(model::stmts(v@)),
    decreases v,
{
    let ghost all = model::stmts(v@);
    let ghost first = seen(out@);
    let mut i: usize = 0;
    assert(first + looks(all.take(0)) =~= first);
    while i < v.len()
        invariant
            i <= v.len(),
            all == model::stmts(v@),
            seen(out@) == first + looks(all.take(i as int)),
        decreases v.len() - i,
    {
        assert(all.take(i + 1).drop_last() =~= all.take(i as int));
        scan_stmt(&v[i], out);
        proof {
            lemma_add_assoc(first, looks(all.take(i as int)), looks_stmt(all[i as int]));
        }
        i += 1;
    }
    assert(all.take(all.len() as int) =~= all);
}

/// The variables that a function reads before it writes them.
pub fn free_captured_vars(stmts: &Vec<Statement>) -> (r: NameSet)
    ensures
        forall|n: Seq<char>| #[trigger]
            r@.contains(n) <==> free_variable(model::stmts(stmts@), n),
{
    let mut v: Vec<(String, bool)> = Vec::new();
    scan_first_use(stmts, &mut v);
    let ghost all = seen(v@);
    assert(all =~= looks(model::stmts(stmts@)));
    let mut known = NameSet::new();
    let mut out = NameSet::new();
    let mut i: usize = 0;
    assert(all.take(0) =~= Seq::empty());
    while i < v.len()
        invariant
            i <= v.len(),
            all == seen(v@),
            forall|n: Seq<char>| #[trigger]
                known@.contains(n) <==> read_first(all.take(i as int), n) is Some,
            forall|n: Seq<char>| #[trigger]
                out@.contains(n) <==> names::valid_identifier(n) && read_first(
                    all.take(i as int),
                    n,
                ) == Some(true),
        decreases v.len() - i,
    {
        let ghost t = all.take(i + 1);
        assert(t.drop_last() =~= all.take(i as int));
        assert(t.last() == all[i as int]);
        let ghost g = all[i as int];
        assert(g == (v@[i as int].0@, v@[i as int].1));
        let first: bool = !known.contains(&v[i].0);
        if first {
            known.insert(&v[i].0);
            if v[i].1 && names::is_valid_identifier(&v[i].0) {
                out.insert(&v[i].0);
            }
        }
        i += 1;
    }
    assert(all.take(all.len() as int) =~= all);
    out
}

} // verus!
