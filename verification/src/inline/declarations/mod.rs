//! Declares the variables of a function where they are first assigned.

pub mod laws;
pub mod scan;
pub mod statement_laws;
pub mod writes;

use self::scan::{collect_scope_info, free_captured_vars, is_pattern, scope_list};
use self::writes::{count_all_writes, name_written_inside, sum};
use crate::dict::{contains_name, Dict, NameSet};
use crate::ir::cloning::{clone_opt_expr, clone_opt_stmt, clone_opt_text};
use crate::ir::model;
use crate::ir::model::{Const, Expr, Stmt, Target, Val};
use crate::ir::nested;
use crate::ir::occurs;
use crate::ir::occurs::{Atom, Occurrence};
use crate::ir::visit;
use crate::ir::{AssignTarget, Constant, Expression, Statement, Value, VarKind};
use crate::names;
use crate::text;
use vstd::prelude::*;

verus! {

/// The numbers of a slot: digits and `_`, with one digit at least.
pub open spec fn slot_number(s: Seq<char>) -> bool {
    &&& forall|i: int| 0 <= i < s.len() ==> text::ascii_digit(#[trigger] s[i]) || s[i] == '_'
    &&& exists|i: int| 0 <= i < s.len() && text::ascii_digit(#[trigger] s[i])
}

/// Names of slots in a closure environment: `closure_0`, `closure_1_2`, `c0`, `c12`.
pub open spec fn env_slot(n: Seq<char>) -> bool {
    match text::after_prefix(n, "closure_"@) {
        Some(rest) => slot_number(rest),
        None => n.len() >= 2 && n[0] == 'c' && text::all_digits(n.subrange(1, n.len() as int)),
    }
}

fn is_slot_number(s: &str) -> (r: bool)
    ensures
        r == slot_number(s@),
{
    let v = text::chars_of(s);
    let mut digit: bool = false;
    let mut i: usize = 0;
    while i < v.len()
        invariant
            i <= v.len(),
            v@ == s@,
            forall|k: int| 0 <= k < i ==> text::ascii_digit(#[trigger] s@[k]) || s@[k] == '_',
            digit == exists|k: int| 0 <= k < i && text::ascii_digit(#[trigger] s@[k]),
        decreases v.len() - i,
    {
        let d: bool = text::is_ascii_digit(v[i]);
        if !d && v[i] != '_' {
            assert(!text::ascii_digit(s@[i as int]));
            return false;
        }
        if d {
            digit = true;
        }
        i += 1;
    }
    digit
}

fn is_env_slot_name(n: &str) -> (r: bool)
    ensures
        r == env_slot(n@),
{
    match text::strip_prefix(n, "closure_") {
        Some(rest) => is_slot_number(&rest),
        None => {
            let len: usize = n.unicode_len();
            len >= 2 && n.get_char(0) == 'c' && text::is_all_digits(&text::slice(n, 1, len))
        },
    }
}

/// What declarations depend on: the function's body, the writes of the functions inside it, its
/// parameters, the names captured from outside, and whether environment slots stay assignments.
#[verifier::ext_equal]
pub struct Scope {
    pub body: Seq<Stmt>,
    pub extra: Map<Seq<char>, usize>,
    pub params: Seq<Seq<char>>,
    pub outer: Set<Seq<char>>,
    pub skip_env: bool,
}

/// The statements of the function with whether each stands in the body of a loop.
pub open spec fn listed(c: Scope) -> Seq<(Stmt, bool)> {
    scan::scoped(c.body, false)
}

/// Names that are not declared here: parameters, names declared already, names captured.
pub open spec fn skipped(c: Scope, n: Seq<char>) -> bool {
    ||| c.params.contains(n)
    ||| scan::declared_at(listed(c), n)
    ||| c.outer.contains(n)
    ||| c.skip_env && env_slot(n)
}

/// Variables that are assigned in loops only, but referred to outside: they are declared at the
/// top of the function.
pub open spec fn carried(c: Scope, n: Seq<char>) -> bool {
    &&& scan::assigned_at(listed(c), true, n)
    &&& !scan::assigned_at(listed(c), false, n)
    &&& scan::referred_at(listed(c), n)
    &&& !skipped(c, n)
    &&& names::valid_identifier(n)
}

/// Names bound by destructuring patterns, unless they are declared elsewhere. A pattern is
/// written as a bare assignment, and two patterns may share a name, so they are declared once, at
/// the top of the function.
pub open spec fn patterned(c: Scope, n: Seq<char>) -> bool {
    &&& !c.params.contains(n)
    &&& !scan::let_at(listed(c), n)
    &&& !c.outer.contains(n)
    &&& !(c.skip_env && env_slot(n))
    &&& names::valid_identifier(n)
}

/// A list of names in order, with one more in it.
pub open spec fn with_name(s: Seq<Seq<char>>, n: Seq<char>) -> Seq<Seq<char>>
    decreases s.len(),
{
    if s.len() == 0 {
        seq![n]
    } else if s.last() == n {
        s
    } else if text::before_in_order(s.last(), n) {
        s.push(n)
    } else {
        with_name(s.drop_last(), n).push(s.last())
    }
}

/// A list of names in order, with those in it that the occurrences in a pattern bind.
pub open spec fn with_bound(c: Scope, s: Seq<Seq<char>>, atoms: Seq<Atom>) -> Seq<Seq<char>>
    decreases atoms.len(),
{
    if atoms.len() == 0 {
        s
    } else {
        let before = with_bound(c, s, atoms.drop_last());
        match atoms.last() {
            Atom::WriteVariable(n) => if patterned(c, n) {
                with_name(before, n)
            } else {
                before
            },
            _ => before,
        }
    }
}

/// The variables that the statements assign and that are declared at the top, in order.
pub open spec fn top_names(c: Scope, s: Seq<(Stmt, bool)>) -> Seq<Seq<char>>
    decreases s.len(),
{
    if s.len() == 0 {
        Seq::empty()
    } else {
        let before = top_names(c, s.drop_last());
        match s.last().0 {
            Stmt::Assign { target: Target::Variable(n), .. } => if carried(c, n) {
                with_name(before, n)
            } else {
                before
            },
            Stmt::Assign { target, .. } => if scan::pattern(target) {
                with_bound(c, before, occurs::target_atoms(target))
            } else {
                before
            },
            _ => before,
        }
    }
}

/// The names declared at the top of the function.
pub open spec fn hoisted(c: Scope) -> Seq<Seq<char>> {
    top_names(c, listed(c))
}

/// `let n;`
pub open spec fn bare_declaration(n: Seq<char>) -> Stmt {
    Stmt::Let { name: n, value: Expr::Value(Val::Constant(Const::Undefined)), kind: VarKind::Let }
}

/// How often a name is written, here and in the functions inside.
pub open spec fn total_writes(c: Scope, n: Seq<char>) -> nat {
    writes::all_writes(c.body, n) + if c.extra.dom().contains(n) {
        c.extra[n] as nat
    } else {
        0
    }
}

/// Whether the first assignment of a variable declares it.
pub open spec fn declares_variable(c: Scope, d: Set<Seq<char>>, n: Seq<char>, e: Expr) -> bool {
    &&& names::valid_identifier(n)
    &&& !skipped(c, n)
    &&& !d.contains(n)
    &&& !scan::free_variable(c.body, n)
    &&& e != Expr::Value(Val::Variable(n))
}

/// Whether the first assignment of a register declares it.
pub open spec fn declares_register(c: Scope, d: Set<Seq<char>>, n: Seq<char>) -> bool {
    !c.params.contains(n) && !scan::declared_at(listed(c), n) && !d.contains(n)
}

/// `const` for a name that is written once, `let` for the others and for environment slots.
pub open spec fn variable_kind(c: Scope, n: Seq<char>) -> VarKind {
    if total_writes(c, n) > 1 || env_slot(n) {
        VarKind::Let
    } else {
        VarKind::Const
    }
}

pub open spec fn register_kind(c: Scope, n: Seq<char>) -> VarKind {
    if total_writes(c, n) > 1 {
        VarKind::Let
    } else {
        VarKind::Const
    }
}

/// A statement with first assignments turned into declarations, and the names declared so far.
pub open spec fn dec_stmt(c: Scope, d: Set<Seq<char>>, s: Stmt) -> (Stmt, Set<Seq<char>>)
    decreases s,
{
    match s {
        Stmt::Assign { target: Target::Variable(n), value } => if declares_variable(c, d, n, value) {
            (Stmt::Let { name: n, value, kind: variable_kind(c, n) }, d.insert(n))
        } else {
            (s, d)
        },
        Stmt::Assign { target: Target::Register(r), value } => {
            let n = names::register_name(r);
            if declares_register(c, d, n) {
                (Stmt::Let { name: n, value, kind: register_kind(c, n) }, d.insert(n))
            } else {
                (s, d)
            }
        },
        Stmt::If { condition, then_body, else_body } => {
            let a = dec_list(c, d, then_body);
            let b = dec_list(c, a.1, else_body);
            (Stmt::If { condition, then_body: a.0, else_body: b.0 }, b.1)
        },
        Stmt::While { condition, body } => {
            let a = dec_list(c, d, body);
            (Stmt::While { condition, body: a.0 }, a.1)
        },
        Stmt::DoWhile { body, condition } => {
            let a = dec_list(c, d, body);
            (Stmt::DoWhile { body: a.0, condition }, a.1)
        },
        Stmt::For { init, condition, update, body } => {
            let a = dec_list(c, d, body);
            (Stmt::For { init, condition, update, body: a.0 }, a.1)
        },
        Stmt::ForIn { variable, object, body } => {
            let a = dec_list(c, d, body);
            (Stmt::ForIn { variable, object, body: a.0 }, a.1)
        },
        Stmt::ForOf { variable, iterable, body } => {
            let a = dec_list(c, d, body);
            (Stmt::ForOf { variable, iterable, body: a.0 }, a.1)
        },
        Stmt::Block(body) => {
            let a = dec_list(c, d, body);
            (Stmt::Block(a.0), a.1)
        },
        Stmt::TryCatch { try_body, catch_param, catch_body, finally_body } => {
            let x = dec_list(c, d, try_body);
            let y = dec_list(c, x.1, catch_body);
            let z = dec_list(c, y.1, finally_body);
            (
                Stmt::TryCatch { try_body: x.0, catch_param, catch_body: y.0, finally_body: z.0 },
                z.1,
            )
        },
        Stmt::Switch { discriminant, cases, default } => {
            let a = dec_cases(c, d, cases);
            match default {
                Some(b) => {
                    let z = dec_list(c, a.1, b);
                    (Stmt::Switch { discriminant, cases: a.0, default: Some(z.0) }, z.1)
                },
                None => (Stmt::Switch { discriminant, cases: a.0, default: None }, a.1),
            }
        },
        _ => (s, d),
    }
}

pub open spec fn dec_list(c: Scope, d: Set<Seq<char>>, s: Seq<Stmt>) -> (Seq<Stmt>, Set<Seq<char>>)
    decreases s,
{
    if s.len() == 0 {
        (Seq::empty(), d)
    } else {
        let a = dec_list(c, d, s.drop_last());
        let b = dec_stmt(c, a.1, s.last());
        (a.0.push(b.0), b.1)
    }
}

pub open spec fn dec_cases(
    c: Scope,
    d: Set<Seq<char>>,
    s: Seq<(Expr, Seq<Stmt>)>,
) -> (Seq<(Expr, Seq<Stmt>)>, Set<Seq<char>>)
    decreases s,
{
    if s.len() == 0 {
        (Seq::empty(), d)
    } else {
        let a = dec_cases(c, d, s.drop_last());
        let b = dec_list(c, a.1, s.last().1);
        (a.0.push((s.last().0, b.0)), b.1)
    }
}

/// A function with its variables declared.
pub open spec fn declared_body(c: Scope) -> Seq<Stmt> {
    let top = hoisted(c);
    dec_list(
        c,
        top.to_set(),
        top.map_values(|n: Seq<char>| bare_declaration(n)) + c.body,
    ).0
}

proof fn lemma_with_name(s: Seq<Seq<char>>, n: Seq<char>)
    ensures
        with_name(s, n).contains(n),
        forall|x: Seq<char>| s.contains(x) ==> #[trigger] with_name(s, n).contains(x),
    decreases s.len(),
{
    let r = with_name(s, n);
    if s.len() == 0 {
        assert(r[0] == n);
    } else if s.last() == n {
        assert(s[s.len() - 1] == n);
    } else if text::before_in_order(s.last(), n) {
        assert(r[s.len() as int] == n);
        assert forall|x: Seq<char>| s.contains(x) implies #[trigger] r.contains(x) by {
            let k = choose|k: int| 0 <= k < s.len() && s[k] == x;
            assert(r[k] == x);
        }
    } else {
        let t = s.drop_last();
        let q = with_name(t, n);
        lemma_with_name(t, n);
        let k = choose|k: int| 0 <= k < q.len() && q[k] == n;
        assert(r[k] == n);
        assert forall|x: Seq<char>| s.contains(x) implies #[trigger] r.contains(x) by {
            let k = choose|k: int| 0 <= k < s.len() && s[k] == x;
            if k < s.len() - 1 {
                assert(t[k] == x);
                assert(q.contains(x));
                let j = choose|j: int| 0 <= j < q.len() && q[j] == x;
                assert(r[j] == x);
            } else {
                assert(r[q.len() as int] == x);
            }
        }
    }
}

proof fn lemma_with_bound(c: Scope, s: Seq<Seq<char>>, atoms: Seq<Atom>)
    ensures
        forall|x: Seq<char>| s.contains(x) ==> #[trigger] with_bound(c, s, atoms).contains(x),
        forall|x: Seq<char>|
            patterned(c, x) && atoms.contains(Atom::WriteVariable(x)) ==> #[trigger] with_bound(
                c,
                s,
                atoms,
            ).contains(x),
    decreases atoms.len(),
{
    if atoms.len() > 0 {
        let past = atoms.drop_last();
        let before = with_bound(c, s, past);
        lemma_with_bound(c, s, past);
        if let Atom::WriteVariable(n) = atoms.last() {
            lemma_with_name(before, n);
        }
        assert forall|x: Seq<char>|
            patterned(c, x) && atoms.contains(Atom::WriteVariable(x)) implies #[trigger] with_bound(
            c,
            s,
            atoms,
        ).contains(x) by {
            let k = choose|k: int| 0 <= k < atoms.len() && atoms[k] == Atom::WriteVariable(x);
            if k < atoms.len() - 1 {
                assert(past[k] == Atom::WriteVariable(x));
                assert(before.contains(x));
            }
        }
    }
}

proof fn lemma_top_names(c: Scope, s: Seq<(Stmt, bool)>, i: int, n: Seq<char>)
    requires
        0 <= i < s.len(),
        scan::binds(s[i].0, n),
        patterned(c, n),
    ensures
        top_names(c, s).contains(n),
    decreases s.len(),
{
    let before = top_names(c, s.drop_last());
    match s.last().0 {
        Stmt::Assign { target: Target::Variable(x), .. } => {
            lemma_with_name(before, x);
        },
        Stmt::Assign { target, .. } => {
            lemma_with_bound(c, before, occurs::target_atoms(target));
        },
        _ => {},
    }
    if i < s.len() - 1 {
        assert(s.drop_last()[i] == s[i]);
        lemma_top_names(c, s.drop_last(), i, n);
    }
}

/// A name that a pattern binds is declared once, at the top of the function, unless it is
/// declared elsewhere.
pub proof fn lemma_pattern_names_are_declared(c: Scope, i: int, n: Seq<char>)
    requires
        0 <= i < listed(c).len(),
        scan::binds(listed(c)[i].0, n),
        patterned(c, n),
    ensures
        hoisted(c).contains(n),
{
    lemma_top_names(c, listed(c), i, n);
}

/// A name that is written more than once, here or in a function inside, is never declared
/// `const`.
pub proof fn lemma_rewritten_names_are_let(c: Scope, d: Set<Seq<char>>, n: Seq<char>, e: Expr)
    requires
        total_writes(c, n) > 1,
        declares_variable(c, d, n, e),
    ensures
        dec_stmt(c, d, Stmt::Assign { target: Target::Variable(n), value: e }).0 == (Stmt::Let {
            name: n,
            value: e,
            kind: VarKind::Let,
        }),
{
}

/// A parameter or a captured variable is never declared again.
pub proof fn lemma_captured_names_stay(c: Scope, d: Set<Seq<char>>, n: Seq<char>, e: Expr)
    requires
        c.params.contains(n) || c.outer.contains(n) || scan::free_variable(c.body, n),
    ensures
        dec_stmt(c, d, Stmt::Assign { target: Target::Variable(n), value: e }).0 == (Stmt::Assign {
            target: Target::Variable(n),
            value: e,
        }),
{
}

/// What is known of a function, in executable form.
struct Facts<'a> {
    body: &'a Vec<Statement>,
    extra: &'a Dict<usize>,
    params: &'a Vec<String>,
    outer: &'a NameSet,
    skip_env: bool,
    declared: NameSet,
    lets: NameSet,
    free: NameSet,
}

impl Facts<'_> {
    closed spec fn view(&self) -> Scope {
        Scope {
            body: model::stmts(self.body@),
            extra: self.extra@,
            params: model::texts(self.params@),
            outer: self.outer@,
            skip_env: self.skip_env,
        }
    }

    closed spec fn wf(&self) -> bool {
        &&& forall|n: Seq<char>| #[trigger]
            self.declared@.contains(n) <==> scan::declared_at(listed(self@), n)
        &&& forall|n: Seq<char>| #[trigger]
            self.lets@.contains(n) <==> scan::let_at(listed(self@), n)
        &&& forall|n: Seq<char>| #[trigger]
            self.free@.contains(n) <==> scan::free_variable(self@.body, n)
    }

    fn is_skipped(&self, n: &str) -> (r: bool)
        requires
            self.wf(),
        ensures
            r == skipped(self@, n@),
    {
        contains_name(self.params, n) || self.declared.contains(n) || self.outer.contains(n) || (
        self.skip_env && is_env_slot_name(n))
    }

    fn is_patterned(&self, n: &str) -> (r: bool)
        requires
            self.wf(),
        ensures
            r == patterned(self@, n@),
    {
        !contains_name(self.params, n) && !self.lets.contains(n) && !self.outer.contains(n) && !(
        self.skip_env && is_env_slot_name(n)) && names::is_valid_identifier(n)
    }

    fn add_bound(&self, v: &mut Vec<String>, t: &AssignTarget)
        requires
            self.wf(),
        ensures
            model::texts(final(v)@) == with_bound(
                self@,
                model::texts(old(v)@),
                occurs::target_atoms(t@),
            ),
    {
        let list = occurs::of_target(t);
        let ghost all = occurs::target_atoms(t@);
        let ghost first = model::texts(v@);
        let mut i: usize = 0;
        assert(all.take(0) =~= Seq::empty());
        while i < list.len()
            invariant
                i <= list.len(),
                self.wf(),
                all == occurs::occs(list@),
                model::texts(v@) == with_bound(self@, first, all.take(i as int)),
            decreases list.len() - i,
        {
            assert(all.take(i + 1).drop_last() =~= all.take(i as int));
            assert(all[i as int] == list@[i as int]@);
            if let Occurrence::WriteVariable(n) = &list[i] {
                if self.is_patterned(n) {
                    add_name(v, n);
                }
            }
            i += 1;
        }
        assert(all.take(all.len() as int) =~= all);
    }

    fn is_rewritten(&self, n: &str) -> (r: bool)
        ensures
            r == (total_writes(self@, n@) > 1),
    {
        let own: usize = count_all_writes(self.body, n);
        let extra: usize = match self.extra.get(n) {
            Some(x) => *x,
            None => 0,
        };
        let ghost a = writes::all_writes(self@.body, n@);
        assert(own == writes::capped(a));
        own > 1 || extra > 1 || (own == 1 && extra == 1)
    }

    fn declares_variable(&self, d: &NameSet, n: &String, e: &Expression) -> (r: bool)
        requires
            self.wf(),
        ensures
            r == declares_variable(self@, d@, n@, e@),
    {
        let itself: bool = match e {
            Expression::Value(Value::Variable(v)) => text::same(v, n),
            _ => false,
        };
        names::is_valid_identifier(n) && !self.is_skipped(n) && !d.contains(n) && !self.free.contains(
            n,
        ) && !itself
    }

    fn declares_register(&self, d: &NameSet, n: &String) -> (r: bool)
        requires
            self.wf(),
        ensures
            r == declares_register(self@, d@, n@),
    {
        !contains_name(self.params, n) && !self.declared.contains(n) && !d.contains(n)
    }

    fn declare_stmt(&self, d: &mut NameSet, s: &Statement) -> (r: Statement)
        requires
            self.wf(),
        ensures
            (r@, final(d)@) == dec_stmt(self@, old(d)@, s@),
        decreases s,
    {
        match s {
            Statement::Assign { target: AssignTarget::Variable(n), value } => {
                if self.declares_variable(d, n, value) {
                    d.insert(n);
                    let kind = if self.is_rewritten(n) || is_env_slot_name(n) {
                        VarKind::Let
                    } else {
                        VarKind::Const
                    };
                    Statement::Let { name: n.clone(), value: value.clone(), kind }
                } else {
                    s.clone()
                }
            },
            Statement::Assign { target: AssignTarget::Register(x), value } => {
                let n = names::name_of_register(*x);
                if self.declares_register(d, &n) {
                    d.insert(&n);
                    let kind = if self.is_rewritten(&n) {
                        VarKind::Let
                    } else {
                        VarKind::Const
                    };
                    Statement::Let { name: n, value: value.clone(), kind }
                } else {
                    s.clone()
                }
            },
            Statement::If { condition, then_body, else_body } => {
                let a = self.declare_list(d, then_body);
                let b = self.declare_list(d, else_body);
                Statement::If { condition: condition.clone(), then_body: a, else_body: b }
            },
            Statement::While { condition, body } => Statement::While {
                condition: condition.clone(),
                body: self.declare_list(d, body),
            },
            Statement::DoWhile { body, condition } => Statement::DoWhile {
                body: self.declare_list(d, body),
                condition: condition.clone(),
            },
            Statement::For { init, condition, update, body } => Statement::For {
                init: clone_opt_stmt(init),
                condition: clone_opt_expr(condition),
                update: clone_opt_stmt(update),
                body: self.declare_list(d, body),
            },
            Statement::ForIn { variable, object, body } => Statement::ForIn {
                variable: variable.clone(),
                object: object.clone(),
                body: self.declare_list(d, body),
            },
            Statement::ForOf { variable, iterable, body } => Statement::ForOf {
                variable: variable.clone(),
                iterable: iterable.clone(),
                body: self.declare_list(d, body),
            },
            Statement::Block(body) => Statement::Block(self.declare_list(d, body)),
            Statement::TryCatch { try_body, catch_param, catch_body, finally_body } => {
                let x = self.declare_list(d, try_body);
                let y = self.declare_list(d, catch_body);
                let z = self.declare_list(d, finally_body);
                Statement::TryCatch {
                    try_body: x,
                    catch_param: clone_opt_text(catch_param),
                    catch_body: y,
                    finally_body: z,
                }
            },
            Statement::Switch { discriminant, cases, default } => {
                let a = self.declare_cases(d, cases);
                let z = match default {
                    Some(b) => Some(self.declare_list(d, b)),
                    None => None,
                };
                Statement::Switch { discriminant: discriminant.clone(), cases: a, default: z }
            },
            _ => s.clone(),
        }
    }

    fn declare_list(&self, d: &mut NameSet, v: &Vec<Statement>) -> (r: Vec<Statement>)
        requires
            self.wf(),
        ensures
            (model::stmts(r@), final(d)@) == dec_list(self@, old(d)@, model::stmts(v@)),
        decreases v,
    {
        let ghost all = model::stmts(v@);
        let ghost first = d@;
        let mut out: Vec<Statement> = Vec::new();
        let mut i: usize = 0;
        assert(model::stmts(out@) =~= Seq::empty());
        while i < v.len()
            invariant
                i <= v.len(),
                self.wf(),
                all == model::stmts(v@),
                (model::stmts(out@), d@) == dec_list(self@, first, all.take(i as int)),
            decreases v.len() - i,
        {
            assert(all.take(i + 1).drop_last() =~= all.take(i as int));
            let ghost before = out@;
            let s = self.declare_stmt(d, &v[i]);
            let ghost x = s@;
            out.push(s);
            assert(model::stmts(out@) =~= model::stmts(before).push(x));
            i += 1;
        }
        assert(all.take(all.len() as int) =~= all);
        out
    }

    fn declare_cases(
        &self,
        d: &mut NameSet,
        v: &Vec<(Expression, Vec<Statement>)>,
    ) -> (r: Vec<(Expression, Vec<Statement>)>)
        requires
            self.wf(),
        ensures
            (model::case_arms(r@), final(d)@) == dec_cases(
                self@,
                old(d)@,
                model::case_arms(v@),
            ),
        decreases v,
    {
        let ghost all = model::case_arms(v@);
        let ghost first = d@;
        let mut out: Vec<(Expression, Vec<Statement>)> = Vec::new();
        let mut i: usize = 0;
        assert(model::case_arms(out@) =~= Seq::empty());
        while i < v.len()
            invariant
                i <= v.len(),
                self.wf(),
                all == model::case_arms(v@),
                (model::case_arms(out@), d@) == dec_cases(self@, first, all.take(i as int)),
            decreases v.len() - i,
        {
            assert(all.take(i + 1).drop_last() =~= all.take(i as int));
            assert(all[i as int] == model::case_arm(v@[i as int]));
            let ghost before = out@;
            let b = self.declare_list(d, &v[i].1);
            let ghost x = model::stmts(b@);
            out.push((v[i].0.clone(), b));
            assert(model::case_arms(out@) =~= model::case_arms(before).push(
                (all[i as int].0, x),
            ));
            i += 1;
        }
        assert(all.take(all.len() as int) =~= all);
        out
    }
}

fn add_name(v: &mut Vec<String>, n: &String)
    ensures
        model::texts(final(v)@) == with_name(model::texts(old(v)@), n@),
{
    let ghost raw = v@;
    let ghost all = model::texts(raw);
    let mut i: usize = v.len();
    assert(all.take(i as int) =~= all);
    assert(with_name(all, n@) =~= with_name(all.take(i as int), n@) + all.skip(i as int));
    while i > 0
        invariant
            i <= v.len(),
            v@ == raw,
            raw == old(v)@,
            all == model::texts(raw),
            with_name(all, n@) == with_name(all.take(i as int), n@) + all.skip(i as int),
        ensures
            i <= v.len(),
            v@ == raw,
            with_name(all, n@) == all.take(i as int).push(n@) + all.skip(i as int),
        decreases i,
    {
        let ghost t = all.take(i as int);
        assert(t.last() == raw[i - 1]@);
        assert(t.drop_last() =~= all.take(i - 1));
        if text::same(&v[i - 1], n) {
            assert(t + all.skip(i as int) =~= all);
            return;
        }
        if text::is_before(&v[i - 1], n) {
            break;
        }
        assert(with_name(all.take(i - 1), n@).push(t.last()) + all.skip(i as int) =~= with_name(
            all.take(i - 1),
            n@,
        ) + all.skip(i - 1));
        i -= 1;
        if i == 0 {
            assert(all.take(0) =~= Seq::empty());
            assert(with_name(all.take(0), n@) =~= all.take(0).push(n@));
        }
    }
    v.insert(i, n.clone());
    assert(model::texts(v@) =~= all.take(i as int).push(n@) + all.skip(i as int));
}

/// Declares the variables of a function where they are first assigned: `x = e` becomes
/// `const x = e`, or `let x = e` where `x` is written again. Names in `outer_names` are captured
/// from an enclosing function and stay assignments; so do environment slots where
/// `skip_env_slots` is set.
pub fn insert_declarations_with_outer(
    stmts: &mut Vec<Statement>,
    params: &Vec<String>,
    extra_writes: &Dict<usize>,
    outer_names: &NameSet,
    skip_env_slots: bool,
)
    ensures
        model::stmts(final(stmts)@) == declared_body(
            Scope {
                body: model::stmts(old(stmts)@),
                extra: extra_writes@,
                params: model::texts(params@),
                outer: outer_names@,
                skip_env: skip_env_slots,
            },
        ),
{
    let out = declare_all(stmts, params, extra_writes, outer_names, skip_env_slots);
    *stmts = out;
}

fn declare_all(
    body: &Vec<Statement>,
    params: &Vec<String>,
    extra: &Dict<usize>,
    outer: &NameSet,
    skip_env: bool,
) -> (r: Vec<Statement>)
    ensures
        model::stmts(r@) == declared_body(
            Scope {
                body: model::stmts(body@),
                extra: extra@,
                params: model::texts(params@),
                outer: outer@,
                skip_env,
            },
        ),
{
    let list = scope_list(body);
    let info = collect_scope_info(&list);
    let free = free_captured_vars(body);
    let in_loop = info.in_loop;
    let out_loop = info.out_loop;
    let referred = info.referred_out;
    let facts = Facts { body, extra, params, outer, skip_env, declared: info.declared, lets: info.lets, free };
    let ghost c = facts@;
    let ghost all = scan::flagged(list@);
    let mut top: Vec<String> = Vec::new();
    let mut i: usize = 0;
    assert(model::texts(top@) =~= Seq::empty());
    assert(all.take(0) =~= Seq::empty());
    while i < list.len()
        invariant
            i <= list.len(),
            all == scan::flagged(list@),
            all == listed(c),
            c == facts@,
            facts.wf(),
            forall|n: Seq<char>| #[trigger]
                in_loop@.contains(n) <==> scan::assigned_at(all, true, n),
            forall|n: Seq<char>| #[trigger]
                out_loop@.contains(n) <==> scan::assigned_at(all, false, n),
            forall|n: Seq<char>| #[trigger] referred@.contains(n) <==> scan::referred_at(all, n),
            model::texts(top@) == top_names(c, all.take(i as int)),
        decreases list.len() - i,
    {
        let ghost t = all.take(i + 1);
        assert(t.drop_last() =~= all.take(i as int));
        let (s, l) = list[i];
        assert(t.last() == (s@, l));
        match s {
            Statement::Assign { target: AssignTarget::Variable(n), .. } => {
                if in_loop.contains(n) && !out_loop.contains(n) && referred.contains(n)
                    && !facts.is_skipped(n) && names::is_valid_identifier(n) {
                    add_name(&mut top, n);
                }
            },
            Statement::Assign { target, .. } => {
                if is_pattern(target) {
                    facts.add_bound(&mut top, target);
                }
            },
            _ => {},
        }
        i += 1;
    }
    assert(all.take(all.len() as int) =~= all);
    let mut known = NameSet::new();
    let mut whole: Vec<Statement> = Vec::new();
    let ghost names = model::texts(top@);
    let ghost decls = names.map_values(|n: Seq<char>| bare_declaration(n));
    let mut k: usize = 0;
    assert(known@ =~= names.take(0).to_set());
    assert(model::stmts(whole@) =~= decls.take(0));
    while k < top.len()
        invariant
            k <= top.len(),
            names == model::texts(top@),
            decls == names.map_values(|n: Seq<char>| bare_declaration(n)),
            known@ == names.take(k as int).to_set(),
            model::stmts(whole@) == decls.take(k as int),
        decreases top.len() - k,
    {
        let ghost before = model::stmts(whole@);
        let ghost past = names.take(k as int);
        let ghost next = names.take(k + 1);
        known.insert(&top[k]);
        let s = Statement::Let {
            name: top[k].clone(),
            value: Expression::Value(Value::Constant(Constant::Undefined)),
            kind: VarKind::Let,
        };
        let ghost x = s@;
        assert(x == bare_declaration(names[k as int]));
        whole.push(s);
        assert(model::stmts(whole@) =~= before.push(x));
        assert(decls.take(k + 1) =~= decls.take(k as int).push(x));
        assert(next =~= past.push(names[k as int]));
        assert forall|n: Seq<char>| #[trigger]
            next.to_set().contains(n) == past.to_set().insert(names[k as int]).contains(n) by {
            if past.contains(n) {
                let j = choose|j: int| 0 <= j < past.len() && past[j] == n;
                assert(next[j] == n);
            }
            assert(next[k as int] == names[k as int]);
        }
        assert(known@ =~= next.to_set());
        k += 1;
    }
    assert(names.take(names.len() as int) =~= names);
    assert(decls.take(decls.len() as int) =~= decls);
    let mut rest = crate::ir::cloning::clone_stmts(body);
    let ghost r = model::stmts(rest@);
    whole.append(&mut rest);
    assert(model::stmts(whole@) =~= decls + r);
    facts.declare_list(&mut known, &whole)
}

/// Declares the variables of a function, taking the writes of the functions inside it into
/// account.
pub fn insert_declarations_with_extra_writes(
    stmts: &mut Vec<Statement>,
    params: &Vec<String>,
    extra_writes: &Dict<usize>,
)
    ensures
        model::stmts(final(stmts)@) == declared_body(
            Scope {
                body: model::stmts(old(stmts)@),
                extra: extra_writes@,
                params: model::texts(params@),
                outer: Set::empty(),
                skip_env: false,
            },
        ),
{
    insert_declarations_with_outer(stmts, params, extra_writes, &NameSet::new(), false);
}

/// Declares the variables of a function.
pub fn insert_declarations(stmts: &mut Vec<Statement>, params: &Vec<String>)
    ensures
        model::stmts(final(stmts)@) == declared_body(
            Scope {
                body: model::stmts(old(stmts)@),
                extra: Map::empty(),
                params: model::texts(params@),
                outer: Set::empty(),
                skip_env: false,
            },
        ),
{
    insert_declarations_with_extra_writes(stmts, params, &Dict::new());
}

/// What the writes of one body add to the count of a name: nothing where the body declares the
/// name itself, two at least where it captures the name, and the writes otherwise.
pub open spec fn added(b: Seq<Stmt>, n: Seq<char>) -> nat {
    let w = writes::all_writes(b, n);
    if w == 0 || scan::declared_at(scan::scoped(b, false), n) {
        0
    } else if scan::free_variable(b, n) && w < 2 {
        2
    } else {
        w
    }
}

/// What the writes of several bodies add to the count of a name.
pub open spec fn added_by(bs: Seq<Seq<Stmt>>, n: Seq<char>) -> nat
    decreases bs.len(),
{
    if bs.len() == 0 {
        0
    } else {
        added_by(bs.drop_last(), n) + added(bs.last(), n)
    }
}

/// The models of bodies.
pub open spec fn bodies(s: Seq<&Vec<Statement>>) -> Seq<Seq<Stmt>> {
    s.map_values(|b: &Vec<Statement>| model::stmts(b@))
}

/// The count that a map gives a name.
pub open spec fn counted(m: Map<Seq<char>, usize>, n: Seq<char>) -> usize {
    if m.dom().contains(n) {
        m[n]
    } else {
        0
    }
}

fn note_name(out: &mut Vec<String>, n: String)
    requires
        model::texts(old(out)@).no_duplicates(),
    ensures
        model::texts(final(out)@).no_duplicates(),
        model::texts(final(out)@).contains(n@),
        forall|y: Seq<char>| #[trigger]
            model::texts(old(out)@).contains(y) ==> model::texts(final(out)@).contains(y),
{
    if !contains_name(out, &n) {
        let ghost before = model::texts(out@);
        let ghost x = n@;
        out.push(n);
        let ghost after = model::texts(out@);
        assert(after =~= before.push(x));
        assert(after[before.len() as int] == x);
        assert forall|y: Seq<char>| #[trigger] before.contains(y) implies after.contains(y) by {
            let k = choose|k: int| 0 <= k < before.len() && before[k] == y;
            assert(after[k] == y);
        }
    }
}

/// The names that a body writes, by nested statements and inside expressions too.
fn written_names(list: &Vec<&Statement>, es: &Vec<&Expression>) -> (r: Vec<String>)
    ensures
        forall|n: Seq<char>|
            writer_in(nested::seen(list@), n) ==> #[trigger] model::texts(r@).contains(n),
        forall|n: Seq<char>|
            writes::writes_inside(visit::seen(es@), n) > 0 ==> #[trigger] model::texts(
                r@,
            ).contains(n),
        model::texts(r@).no_duplicates(),
{
    let ghost all = nested::seen(list@);
    let ghost seen = visit::seen(es@);
    let mut out: Vec<String> = Vec::new();
    let mut i: usize = 0;
    while i < list.len()
        invariant
            i <= list.len(),
            all == nested::seen(list@),
            forall|k: int|
                0 <= k < i && (#[trigger] writes::written(all[k])) is Some ==> model::texts(
                    out@,
                ).contains(writes::written(all[k])->0),
            model::texts(out@).no_duplicates(),
        decreases list.len() - i,
    {
        let s = list[i];
        assert(all[i as int] == s@);
        let name: Option<String> = match s {
            Statement::Assign { target: AssignTarget::Variable(n), .. } => Some(n.clone()),
            Statement::Assign { target: AssignTarget::Register(r), .. } => Some(
                names::name_of_register(*r),
            ),
            _ => None,
        };
        assert(text::opt(name) == writes::written(s@));
        if let Some(n) = name {
            note_name(&mut out, n);
        }
        i += 1;
    }
    let mut k: usize = 0;
    while k < es.len()
        invariant
            k <= es.len(),
            all == nested::seen(list@),
            seen == visit::seen(es@),
            forall|j: int|
                0 <= j < all.len() && (#[trigger] writes::written(all[j])) is Some ==> model::texts(
                    out@,
                ).contains(writes::written(all[j])->0),
            forall|n: Seq<char>|
                writes::writes_inside(seen.take(k as int), n) > 0 ==> #[trigger] model::texts(
                    out@,
                ).contains(n),
            model::texts(out@).no_duplicates(),
        decreases es.len() - k,
    {
        assert(seen.take(k + 1).drop_last() =~= seen.take(k as int));
        let e = es[k];
        assert(seen[k as int] == e@);
        assert(seen.take(k + 1).last() == e@);
        let ghost before = model::texts(out@);
        if let Some(n) = name_written_inside(e) {
            note_name(&mut out, n);
        }
        assert forall|n: Seq<char>|
            writes::writes_inside(seen.take(k + 1), n) > 0 implies #[trigger] model::texts(
            out@,
        ).contains(n) by {
            if writes::written_inside(e@) != Some(n) {
                assert(before.contains(n));
            }
        }
        k += 1;
    }
    assert(seen.take(seen.len() as int) =~= seen);
    out
}

/// Whether one of the statements writes a name.
spec fn writer_in(s: Seq<Stmt>, n: Seq<char>) -> bool {
    exists|i: int| 0 <= i < s.len() && #[trigger] writes::written(s[i]) == Some(n)
}

proof fn lemma_listed_in_sum(a: Seq<Stmt>, b: Seq<Stmt>, n: Seq<char>)
    ensures
        writer_in(a + b, n) == (writer_in(a, n) || writer_in(b, n)),
{
    let c = a + b;
    if writer_in(a, n) {
        let i = choose|i: int| 0 <= i < a.len() && #[trigger] writes::written(a[i]) == Some(n);
        assert(writes::written(c[i]) == Some(n));
    }
    if writer_in(b, n) {
        let i = choose|i: int| 0 <= i < b.len() && #[trigger] writes::written(b[i]) == Some(n);
        assert(writes::written(c[a.len() + i]) == Some(n));
    }
    if writer_in(c, n) {
        let i = choose|i: int| 0 <= i < c.len() && #[trigger] writes::written(c[i]) == Some(n);
        if i < a.len() {
            assert(writes::written(a[i]) == Some(n));
        } else {
            assert(writes::written(b[i - a.len()]) == Some(n));
        }
    }
}

/// A name that is written somewhere is written by one of the statements of a list.
proof fn lemma_written_is_listed(s: Seq<Stmt>, n: Seq<char>)
    ensures
        writes::writes(s, n) > 0 ==> writer_in(nested::flat(s), n),
    decreases s,
{
    if s.len() > 0 {
        lemma_written_is_listed(s.drop_last(), n);
        lemma_written_in_stmt(s.last(), n);
        lemma_listed_in_sum(nested::flat(s.drop_last()), nested::flat_stmt(s.last()), n);
    }
}

proof fn lemma_written_in_opt(o: Option<Box<Stmt>>, n: Seq<char>)
    ensures
        writes::writes_opt(o, n) > 0 ==> writer_in(nested::flat_opt(o), n),
    decreases o,
{
    if let Some(s) = o {
        lemma_written_in_stmt(*s, n);
    }
}

proof fn lemma_written_in_stmt(s: Stmt, n: Seq<char>)
    ensures
        writes::writes_stmt(s, n) > 0 ==> writer_in(nested::flat_stmt(s), n),
    decreases s,
{
    let own = seq![s];
    let all = nested::flat_stmt(s);
    if writes::written(s) == Some(n) {
        assert(writes::written(all[0]) == Some(n));
    }
    match s {
        Stmt::While { body, .. } => {
            lemma_written_is_listed(body, n);
            lemma_listed_in_sum(own, nested::flat(body), n);
        },
        Stmt::DoWhile { body, .. } => {
            lemma_written_is_listed(body, n);
            lemma_listed_in_sum(own, nested::flat(body), n);
        },
        Stmt::For { init, update, body, .. } => {
            let a = nested::flat_opt(init);
            let b = nested::flat_opt(update);
            let c = nested::flat(body);
            lemma_written_in_opt(init, n);
            lemma_written_in_opt(update, n);
            lemma_written_is_listed(body, n);
            lemma_listed_in_sum(a, b, n);
            lemma_listed_in_sum(a + b, c, n);
            lemma_listed_in_sum(own, a + b + c, n);
        },
        Stmt::ForIn { body, .. } => {
            lemma_written_is_listed(body, n);
            lemma_listed_in_sum(own, nested::flat(body), n);
        },
        Stmt::ForOf { body, .. } => {
            lemma_written_is_listed(body, n);
            lemma_listed_in_sum(own, nested::flat(body), n);
        },
        Stmt::Block(body) => {
            lemma_written_is_listed(body, n);
            lemma_listed_in_sum(own, nested::flat(body), n);
        },
        Stmt::If { then_body, else_body, .. } => {
            let a = nested::flat(then_body);
            let b = nested::flat(else_body);
            lemma_written_is_listed(then_body, n);
            lemma_written_is_listed(else_body, n);
            lemma_listed_in_sum(a, b, n);
            lemma_listed_in_sum(own, a + b, n);
        },
        Stmt::TryCatch { try_body, catch_body, finally_body, .. } => {
            let a = nested::flat(try_body);
            let b = nested::flat(catch_body);
            let c = nested::flat(finally_body);
            lemma_written_is_listed(try_body, n);
            lemma_written_is_listed(catch_body, n);
            lemma_written_is_listed(finally_body, n);
            lemma_listed_in_sum(a, b, n);
            lemma_listed_in_sum(a + b, c, n);
            lemma_listed_in_sum(own, a + b + c, n);
        },
        Stmt::Switch { cases, default, .. } => {
            let a = nested::flat_cases(cases);
            let b = nested::flat_default(default);
            lemma_written_in_cases(cases, n);
            if let Some(d) = default {
                lemma_written_is_listed(d, n);
            }
            lemma_listed_in_sum(a, b, n);
            lemma_listed_in_sum(own, a + b, n);
        },
        _ => {},
    }
}

proof fn lemma_written_in_cases(s: Seq<(Expr, Seq<Stmt>)>, n: Seq<char>)
    ensures
        writes::writes_cases(s, n) > 0 ==> writer_in(nested::flat_cases(s), n),
    decreases s,
{
    if s.len() > 0 {
        lemma_written_in_cases(s.drop_last(), n);
        lemma_written_is_listed(s.last().1, n);
        lemma_listed_in_sum(nested::flat_cases(s.drop_last()), nested::flat(s.last().1), n);
    }
}

/// What one body adds to the count of a name.
fn count_added(
    body: &Vec<Statement>,
    declared: &NameSet,
    free: &NameSet,
    n: &str,
) -> (r: usize)
    requires
        forall|x: Seq<char>| #[trigger]
            declared@.contains(x) <==> scan::declared_at(
                scan::scoped(model::stmts(body@), false),
                x,
            ),
        forall|x: Seq<char>| #[trigger]
            free@.contains(x) <==> scan::free_variable(model::stmts(body@), x),
    ensures
        r == writes::capped(added(model::stmts(body@), n@)),
{
    let w: usize = count_all_writes(body, n);
    if w == 0 || declared.contains(n) {
        0
    } else if free.contains(n) && w < 2 {
        2
    } else {
        w
    }
}

/// The writes of names by nested functions, so that the enclosing function declares a name with
/// `let` where a nested function writes it. A write of a captured name counts as two.
pub fn extra_writes_from_nested_bodies(nested_bodies: &Vec<&Vec<Statement>>) -> (r: Dict<usize>)
    ensures
        forall|n: Seq<char>| #[trigger]
            counted(r@, n) == writes::capped(added_by(bodies(nested_bodies@), n)),
        forall|n: Seq<char>| #[trigger]
            r@.dom().contains(n) <==> added_by(bodies(nested_bodies@), n) > 0,
{
    let ghost all = bodies(nested_bodies@);
    let mut out: Dict<usize> = Dict::new();
    let mut i: usize = 0;
    assert(all.take(0) =~= Seq::empty());
    while i < nested_bodies.len()
        invariant
            i <= nested_bodies.len(),
            all == bodies(nested_bodies@),
            forall|n: Seq<char>| #[trigger]
                counted(out@, n) == writes::capped(added_by(all.take(i as int), n)),
            forall|n: Seq<char>| #[trigger]
                out@.dom().contains(n) <==> added_by(all.take(i as int), n) > 0,
        decreases nested_bodies.len() - i,
    {
        let body = nested_bodies[i];
        let ghost b = model::stmts(body@);
        let ghost t = all.take(i + 1);
        assert(t.drop_last() =~= all.take(i as int));
        assert(t.last() == b);
        let list = scope_list(body);
        let info = collect_scope_info(&list);
        let free = free_captured_vars(body);
        let written = written_names(&nested::of_stmts(body), &visit::of_stmts(body));
        let ghost ws = model::texts(written@);
        let ghost past = all.take(i as int);
        let mut k: usize = 0;
        while k < written.len()
            invariant
                k <= written.len(),
                ws == model::texts(written@),
                ws.no_duplicates(),
                b == model::stmts(body@),
                forall|x: Seq<char>| #[trigger]
                    info.declared@.contains(x) <==> scan::declared_at(scan::scoped(b, false), x),
                forall|x: Seq<char>| #[trigger]
                    free@.contains(x) <==> scan::free_variable(b, x),
                forall|n: Seq<char>| #[trigger]
                    counted(out@, n) == writes::capped(
                        added_by(past, n) + if ws.take(k as int).contains(n) {
                            added(b, n)
                        } else {
                            0
                        },
                    ),
                forall|n: Seq<char>| #[trigger]
                    out@.dom().contains(n) <==> added_by(past, n) + (if ws.take(k as int).contains(
                        n,
                    ) {
                        added(b, n)
                    } else {
                        0
                    }) > 0,
            decreases written.len() - k,
        {
            let name = &written[k];
            let ghost n = name@;
            assert(ws[k as int] == n);
            let ghost known = ws.take(k as int);
            let ghost next = ws.take(k + 1);
            assert(!known.contains(n));
            assert(next =~= known.push(n));
            assert forall|x: Seq<char>| #[trigger] next.contains(x) <==> known.contains(x) || x
                == n by {
                if known.contains(x) {
                    let j = choose|j: int| 0 <= j < known.len() && known[j] == x;
                    assert(next[j] == x);
                }
                assert(next[k as int] == n);
            }
            let more: usize = count_added(body, &info.declared, &free, name);
            if more > 0 {
                let now: usize = match out.get(name) {
                    Some(x) => *x,
                    None => 0,
                };
                assert(now == counted(out@, n));
                let total: usize = sum(
                    now,
                    more,
                    Ghost(added_by(past, n)),
                    Ghost(added(b, n)),
                );
                let ghost before = out@;
                out.insert(name, total);
                assert forall|x: Seq<char>| x != n implies #[trigger] counted(out@, x) == counted(
                    before,
                    x,
                ) by {}
            }
            k += 1;
        }
        assert(ws.take(ws.len() as int) =~= ws);
        assert forall|n: Seq<char>| added(b, n) > 0 implies ws.contains(n) by {
            lemma_written_is_listed(b, n);
        }
        assert forall|n: Seq<char>| #[trigger]
            added_by(t, n) == added_by(past, n) + (if ws.contains(n) {
                added(b, n)
            } else {
                0
            }) by {}
        i += 1;
    }
    assert(all.take(all.len() as int) =~= all);
    out
}

} // verus!
