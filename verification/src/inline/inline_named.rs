//! Inlines named temporaries.
//!
//! Once registers have names, a temporary that is assigned once and read once is written at its
//! use, one that is never read goes, and a simple value that is read a few times is written at
//! each of its uses.

use super::cleanup;
use super::cleanup::cleanup_noise;
use super::vars;
use super::vars::{substitute_expr, substitute_stmt};
use crate::dict::NameSet;
use crate::ir::bindings;
use crate::ir::bindings::as_binding;
use crate::ir::cloning::clone_stmts;
use crate::ir::effects;
use crate::ir::model;
use crate::ir::model::{Expr, Key, Stmt, Target, Val};
use crate::ir::occurs;
use crate::ir::occurs::{Atom, Occurrence};
use crate::ir::weight;
use crate::ir::{AssignTarget, Expression, PropertyKey, Statement, Value};
use crate::text;
use vstd::prelude::*;

verus! {

/// The rounds of alias elimination at most.
pub const MAX_ALIAS_PASSES: usize = 8;

/// A name made of a stem and a number, or of the stem alone.
pub open spec fn stem_name(n: Seq<char>, stem: Seq<char>) -> bool {
    match text::after_prefix(n, stem) {
        Some(rest) => text::all_digits(rest),
        None => false,
    }
}

fn is_stem_name(n: &str, stem: &str) -> (r: bool)
    ensures
        r == stem_name(n@, stem@),
{
    match text::strip_prefix(n, stem) {
        Some(rest) => text::is_all_digits(&rest),
        None => false,
    }
}

/// `tmp`, `tmp2`, .. and `r0`, `r1`, ..
pub open spec fn tmp_or_register(n: Seq<char>) -> bool {
    stem_name(n, "tmp"@) || (n != "r"@ && stem_name(n, "r"@))
}

/// The names that registers get from what they hold.
pub open spec fn generic_role(n: Seq<char>) -> bool {
    ||| stem_name(n, "num"@)
    ||| stem_name(n, "str"@)
    ||| stem_name(n, "obj"@)
    ||| stem_name(n, "fn"@)
    ||| stem_name(n, "arr"@)
    ||| stem_name(n, "bool"@)
    ||| stem_name(n, "length"@)
    ||| stem_name(n, "iter"@)
    ||| stem_name(n, "promise"@)
    ||| stem_name(n, "date"@)
    ||| stem_name(n, "err"@)
    ||| stem_name(n, "map"@)
    ||| stem_name(n, "set"@)
    ||| stem_name(n, "key"@)
    ||| stem_name(n, "val"@)
    ||| stem_name(n, "idx"@)
    ||| stem_name(n, "ref"@)
    ||| stem_name(n, "flag"@)
}

/// The names of wrappers and of values computed on the way.
pub open spec fn intermediate(n: Seq<char>) -> bool {
    ||| text::has_prefix(n, "_default"@)
    ||| text::has_prefix(n, "_interop"@)
    ||| text::has_prefix(n, "_extends"@)
    ||| text::has_part(n, "Result"@)
    ||| text::has_part(n, "Return"@)
    ||| text::has_part(n, "Promise"@)
    ||| text::has_part(n, "Callback"@)
    ||| text::has_part(n, "Handler"@)
    ||| text::has_part(n, "Wrapper"@)
}

/// The names of temporaries. A captured variable (`closure_0`) is not one: other functions may
/// read it.
pub open spec fn inlinable(n: Seq<char>) -> bool {
    tmp_or_register(n) || generic_role(n) || intermediate(n)
}

fn is_tmp_or_register(n: &str) -> (r: bool)
    ensures
        r == tmp_or_register(n@),
{
    is_stem_name(n, "tmp") || (!text::same(n, "r") && is_stem_name(n, "r"))
}

fn is_generic_role_name(n: &str) -> (r: bool)
    ensures
        r == generic_role(n@),
{
    is_stem_name(n, "num") || is_stem_name(n, "str") || is_stem_name(n, "obj") || is_stem_name(
        n,
        "fn",
    ) || is_stem_name(n, "arr") || is_stem_name(n, "bool") || is_stem_name(n, "length")
        || is_stem_name(n, "iter") || is_stem_name(n, "promise") || is_stem_name(n, "date")
        || is_stem_name(n, "err") || is_stem_name(n, "map") || is_stem_name(n, "set")
        || is_stem_name(n, "key") || is_stem_name(n, "val") || is_stem_name(n, "idx")
        || is_stem_name(n, "ref") || is_stem_name(n, "flag")
}

fn is_wrapper_or_intermediate(n: &str) -> (r: bool)
    ensures
        r == intermediate(n@),
{
    text::starts_with(n, "_default") || text::starts_with(n, "_interop") || text::starts_with(
        n,
        "_extends",
    ) || text::contains(n, "Result") || text::contains(n, "Return") || text::contains(n, "Promise")
        || text::contains(n, "Callback") || text::contains(n, "Handler") || text::contains(
        n,
        "Wrapper",
    )
}

/// Whether a variable that is never read may go.
pub fn is_dead_inlinable_name(name: &str) -> (r: bool)
    ensures
        r == inlinable(name@),
{
    is_tmp_or_register(name) || is_generic_role_name(name) || is_wrapper_or_intermediate(name)
}

/// Whether a variable may be inlined.
pub fn is_inlinable_name(name: &str) -> (r: bool)
    ensures
        r == inlinable(name@),
{
    is_tmp_or_register(name) || is_generic_role_name(name) || is_wrapper_or_intermediate(name)
}

/// The name that an occurrence gives a value.
pub open spec fn defined(a: Atom) -> Option<Seq<char>> {
    match a {
        Atom::Declare(n) => Some(n),
        Atom::WriteVariable(n) => Some(n),
        Atom::LoopVar(n) => Some(n),
        Atom::CatchParam(n) => Some(n),
        _ => None,
    }
}

/// How often a name is given a value.
pub open spec fn defs_of(s: Seq<Atom>, n: Seq<char>) -> nat
    decreases s.len(),
{
    if s.len() == 0 {
        0
    } else if defined(s.last()) == Some(n) {
        defs_of(s.drop_last(), n) + 1
    } else {
        defs_of(s.drop_last(), n)
    }
}

/// How often a name is read.
pub open spec fn uses_of(s: Seq<Atom>, n: Seq<char>) -> nat {
    occurs::count(s, Atom::Use(Val::Variable(n)))
}

/// The temporaries that are assigned once and read once.
pub open spec fn read_once(s: Seq<Atom>, n: Seq<char>) -> bool {
    defs_of(s, n) == 1 && inlinable(n) && uses_of(s, n) == 1
}

/// The temporaries that are assigned once and read a few times.
pub open spec fn read_often(s: Seq<Atom>, n: Seq<char>) -> bool {
    defs_of(s, n) == 1 && inlinable(n) && 1 < uses_of(s, n) <= 48
}

/// The temporaries that are never read.
pub open spec fn never_read(s: Seq<Atom>, n: Seq<char>) -> bool {
    defs_of(s, n) >= 1 && uses_of(s, n) == 0 && inlinable(n)
}

/// The variables that may be inlined or dropped, by the counts of the whole function.
#[verifier::ext_equal]
pub struct Candidates {
    pub once: Set<Seq<char>>,
    pub often: Set<Seq<char>>,
    pub dead: Set<Seq<char>>,
}

pub open spec fn candidates(s: Seq<Atom>) -> Candidates {
    Candidates {
        once: Set::new(|n: Seq<char>| read_once(s, n)),
        often: Set::new(|n: Seq<char>| read_often(s, n)),
        dead: Set::new(|n: Seq<char>| never_read(s, n)),
    }
}

pub open spec fn no_candidates(c: Candidates) -> bool {
    &&& c.once == Set::<Seq<char>>::empty()
    &&& c.often == Set::<Seq<char>>::empty()
    &&& c.dead == Set::<Seq<char>>::empty()
}

/// Values that may be written more than once: names, constants, and short chains of members and
/// operators over them.
pub open spec fn simple_pure(e: Expr, depth: nat) -> bool
    decreases e,
{
    depth <= 4 && match e {
        Expr::Value(v) => !(v is Register || v is ClosureVar),
        Expr::Member { object, property, .. } => simple_pure(*object, depth + 1) && match property {
            Key::Computed(k) => simple_pure(*k, depth + 1),
            _ => true,
        },
        Expr::Unary { operand, .. } => simple_pure(*operand, depth + 1),
        Expr::Binary { left, right, .. } => simple_pure(*left, depth + 1) && simple_pure(
            *right,
            depth + 1,
        ),
        _ => false,
    }
}

pub open spec fn constant(e: Expr) -> bool {
    e matches Expr::Value(Val::Constant(_))
}

/// A list of definitions ordered by name, with one more in it.
pub open spec fn with_value(
    p: Seq<(Seq<char>, Expr)>,
    n: Seq<char>,
    e: Expr,
) -> Seq<(Seq<char>, Expr)>
    decreases p.len(),
{
    if p.len() == 0 {
        seq![(n, e)]
    } else if p.last().0 == n {
        p.drop_last().push((n, e))
    } else if text::before_in_order(p.last().0, n) {
        p.push((n, e))
    } else {
        with_value(p.drop_last(), n, e).push(p.last())
    }
}

/// The definitions that wait for their use, less those that are used.
pub open spec fn unused(p: Seq<(Seq<char>, Expr)>, s: Seq<Atom>) -> Seq<(Seq<char>, Expr)>
    decreases p.len(),
{
    if p.len() == 0 {
        Seq::empty()
    } else if s.contains(Atom::Use(Val::Variable(p.last().0))) {
        unused(p.drop_last(), s)
    } else {
        unused(p.drop_last(), s).push(p.last())
    }
}

/// The definitions as assignments.
pub open spec fn assignments(p: Seq<(Seq<char>, Expr)>) -> Seq<Stmt> {
    p.map_values(
        |d: (Seq<char>, Expr)| Stmt::Assign { target: Target::Variable(d.0), value: d.1 },
    )
}

pub open spec fn any_effects(p: Seq<(Seq<char>, Expr)>) -> bool
    decreases p.len(),
{
    p.len() > 0 && (effects::effects(p.last().1) || any_effects(p.drop_last()))
}

/// The state of the pass over a list.
#[verifier::ext_equal]
pub struct Work {
    /// Definitions to be written at each of their uses.
    pub often: Seq<(Seq<char>, Expr)>,
    /// Definitions that wait for their one use, ordered by name.
    pub pending: Seq<(Seq<char>, Expr)>,
    pub out: Seq<Stmt>,
}

/// The pending definitions written out.
pub open spec fn flushed(w: Work) -> Work {
    Work { pending: Seq::empty(), out: w.out + assignments(w.pending), ..w }
}

/// A value with both kinds of definitions written in.
pub open spec fn settled(w: Work, e: Expr) -> Expr {
    vars::sub_expr(w.often, vars::sub_expr(w.pending, e))
}

/// The occurrences in a statement that it may reach never or more than once: those in nested
/// bodies, and in what a loop evaluates on each round.
pub open spec fn inner_atoms(s: Stmt) -> Seq<Atom> {
    match s {
        Stmt::If { then_body, else_body, .. } => occurs::stmts_atoms(then_body)
            + occurs::stmts_atoms(else_body),
        Stmt::ForIn { body, .. } => occurs::stmts_atoms(body),
        Stmt::ForOf { body, .. } => occurs::stmts_atoms(body),
        Stmt::Switch { cases, default, .. } => occurs::cases_atoms(cases)
            + occurs::opt_stmts_atoms(default),
        Stmt::While { .. } => occurs::stmt_atoms(s),
        Stmt::DoWhile { .. } => occurs::stmt_atoms(s),
        Stmt::For { .. } => occurs::stmt_atoms(s),
        Stmt::Block(_) => occurs::stmt_atoms(s),
        Stmt::TryCatch { .. } => occurs::stmt_atoms(s),
        _ => Seq::empty(),
    }
}

/// Whether one of the definitions is used.
pub open spec fn any_used(p: Seq<(Seq<char>, Expr)>, s: Seq<Atom>) -> bool
    decreases p.len(),
{
    p.len() > 0 && (s.contains(Atom::Use(Val::Variable(p.last().0))) || any_used(p.drop_last(), s))
}

/// The work before a statement: where it reads a pending definition in a nested body or on each
/// round of a loop, the definitions are written out first, so that each is still evaluated once.
pub open spec fn ready(w: Work, s: Stmt) -> Work {
    if any_used(w.pending, inner_atoms(s)) {
        flushed(w)
    } else {
        w
    }
}

/// A statement passed on, with the definitions that it uses written in.
pub open spec fn emitted(w: Work, s: Stmt) -> Work {
    let f = ready(w, s);
    Work {
        pending: unused(f.pending, occurs::stmt_atoms(s)),
        out: f.out.push(vars::sub_stmt(f.often, vars::sub_stmt(f.pending, s))),
        ..f
    }
}

/// The work once a value has been settled: the definitions written into it are done with, so that
/// none is evaluated again.
pub open spec fn spent(w: Work, e: Expr) -> Work {
    Work { pending: unused(w.pending, occurs::expr_atoms(e)), ..w }
}

/// A definition of a variable that is read once.
pub open spec fn defer(w: Work, n: Seq<char>, e: Expr) -> Work {
    let v = settled(w, e);
    let d = spent(w, e);
    if constant(v) {
        Work { often: d.often.push((n, v)), ..d }
    } else {
        let f = if effects::effects(v) && any_effects(d.pending) {
            flushed(d)
        } else {
            d
        };
        Work { pending: with_value(f.pending, n, v), ..f }
    }
}

/// A definition of a variable that is read a few times.
pub open spec fn spread(w: Work, n: Seq<char>, e: Expr) -> Work {
    let v = settled(w, e);
    let d = spent(w, e);
    if simple_pure(v, 0) {
        Work { often: d.often.push((n, v)), ..d }
    } else {
        Work { out: d.out.push(Stmt::Assign { target: Target::Variable(n), value: v }), ..d }
    }
}

/// One statement of a list.
pub open spec fn inline_step(c: Candidates, w: Work, s: Stmt) -> Work {
    match bindings::binding(s) {
        Some(b) => if b.1 is Function {
            emitted(w, s)
        } else if c.once.contains(b.0) {
            defer(w, b.0, b.1)
        } else if c.often.contains(b.0) {
            spread(w, b.0, b.1)
        } else if c.dead.contains(b.0) {
            if effects::effects(b.1) {
                Work { out: w.out.push(Stmt::Expr(settled(w, b.1))), ..spent(w, b.1) }
            } else {
                w
            }
        } else {
            emitted(w, s)
        },
        None => emitted(w, s),
    }
}

pub open spec fn inline_walk(c: Candidates, s: Seq<Stmt>) -> Work
    decreases s.len(),
{
    if s.len() == 0 {
        Work { often: Seq::empty(), pending: Seq::empty(), out: Seq::empty() }
    } else {
        inline_step(c, inline_walk(c, s.drop_last()), s.last())
    }
}

/// A list after the pass, nested bodies of branches included. Loop bodies are left alone.
pub open spec fn inlined(c: Candidates, s: Seq<Stmt>) -> Seq<Stmt>
    decreases weight::weight(s), 2nat, 0nat,
{
    if no_candidates(c) {
        s
    } else {
        let t = flushed(inline_walk(c, s)).out;
        cleanup::cleaned(inlined_bodies(c, t, weight::weight(s)))
    }
}

/// The statements with their bodies inlined, where these weigh no more than `n`.
pub open spec fn inlined_bodies(c: Candidates, t: Seq<Stmt>, n: nat) -> Seq<Stmt>
    decreases n, 1nat, t.len(),
{
    if t.len() == 0 {
        Seq::empty()
    } else {
        let x = t.last();
        inlined_bodies(c, t.drop_last(), n).push(
            if weight::weight_stmt(x) <= n {
                inlined_stmt(c, x)
            } else {
                x
            },
        )
    }
}

pub open spec fn inlined_stmt(c: Candidates, s: Stmt) -> Stmt
    decreases weight::weight_stmt(s), 0nat, 0nat,
{
    match s {
        Stmt::If { condition, then_body, else_body } => Stmt::If {
            condition,
            then_body: inlined(c, then_body),
            else_body: inlined(c, else_body),
        },
        Stmt::Block(body) => Stmt::Block(inlined(c, body)),
        Stmt::TryCatch { try_body, catch_param, catch_body, finally_body } => Stmt::TryCatch {
            try_body: inlined(c, try_body),
            catch_param,
            catch_body: inlined(c, catch_body),
            finally_body: inlined(c, finally_body),
        },
        Stmt::Switch { discriminant, cases, default } => Stmt::Switch {
            discriminant,
            cases: inlined_cases(c, cases),
            default: match default {
                Some(d) => Some(inlined(c, d)),
                None => None,
            },
        },
        _ => s,
    }
}

pub open spec fn inlined_cases(c: Candidates, s: Seq<(Expr, Seq<Stmt>)>) -> Seq<(Expr, Seq<Stmt>)>
    decreases weight::weight_cases(s), 3nat, s.len(),
{
    if s.len() == 0 {
        Seq::empty()
    } else {
        inlined_cases(c, s.drop_last()).push((s.last().0, inlined(c, s.last().1)))
    }
}

proof fn lemma_defined(s: Seq<Atom>, n: Seq<char>)
    ensures
        defs_of(s, n) <= s.len(),
        defs_of(s, n) > 0 ==> exists|i: int|
            0 <= i < s.len() && #[trigger] defined(s[i]) == Some(n),
    decreases s.len(),
{
    if s.len() > 0 {
        let t = s.drop_last();
        lemma_defined(t, n);
        if defined(s.last()) == Some(n) {
            assert(defined(s[s.len() - 1]) == Some(n));
        } else if defs_of(s, n) > 0 {
            let i = choose|i: int| 0 <= i < t.len() && #[trigger] defined(t[i]) == Some(n);
            assert(defined(s[i]) == Some(n));
        }
    }
}

fn as_defined(o: &Occurrence) -> (r: Option<&String>)
    ensures
        match r {
            Some(n) => defined(o@) == Some(n@),
            None => defined(o@) is None,
        },
{
    match o {
        Occurrence::Declare(n) => Some(n),
        Occurrence::WriteVariable(n) => Some(n),
        Occurrence::LoopVar(n) => Some(n),
        Occurrence::CatchParam(n) => Some(n),
        _ => None,
    }
}

/// How often a name is given a value.
pub fn count_defs(v: &Vec<Occurrence>, n: &str) -> (r: usize)
    ensures
        r == defs_of(occurs::occs(v@), n@),
{
    let ghost all = occurs::occs(v@);
    let mut count: usize = 0;
    let mut i: usize = 0;
    while i < v.len()
        invariant
            i <= v.len(),
            count <= i,
            all == occurs::occs(v@),
            count == defs_of(all.take(i as int), n@),
        decreases v.len() - i,
    {
        assert(all.take(i + 1).drop_last() =~= all.take(i as int));
        assert(all[i as int] == v@[i as int]@);
        if let Some(x) = as_defined(&v[i]) {
            if text::same(x, n) {
                count += 1;
            }
        }
        i += 1;
    }
    assert(all.take(all.len() as int) =~= all);
    count
}

fn count_uses(v: &Vec<Occurrence>, n: &String) -> (r: usize)
    ensures
        r == uses_of(occurs::occs(v@), n@),
{
    occurs::count_of(v, &Occurrence::Use(Value::Variable(n.clone())))
}

/// The candidates in executable form.
pub struct CandidateSets {
    pub once: NameSet,
    pub often: NameSet,
    pub dead: NameSet,
}

impl CandidateSets {
    pub open spec fn view(&self) -> Candidates {
        Candidates { once: self.once@, often: self.often@, dead: self.dead@ }
    }

    fn is_empty(&self) -> (r: bool)
        ensures
            r == no_candidates(self@),
    {
        self.once.is_empty() && self.often.is_empty() && self.dead.is_empty()
    }
}

fn find_candidates(v: &Vec<Occurrence>) -> (r: CandidateSets)
    ensures
        r@ == candidates(occurs::occs(v@)),
{
    let ghost all = occurs::occs(v@);
    let mut once = NameSet::new();
    let mut often = NameSet::new();
    let mut dead = NameSet::new();
    let mut i: usize = 0;
    while i < v.len()
        invariant
            i <= v.len(),
            all == occurs::occs(v@),
            forall|n: Seq<char>| #[trigger] once@.contains(n) ==> read_once(all, n),
            forall|n: Seq<char>| #[trigger] often@.contains(n) ==> read_often(all, n),
            forall|n: Seq<char>| #[trigger] dead@.contains(n) ==> never_read(all, n),
            forall|k: int, n: Seq<char>|
                0 <= k < i && #[trigger] defined(all[k]) == Some(n) ==> {
                    &&& #[trigger] read_once(all, n) ==> once@.contains(n)
                    &&& read_often(all, n) ==> often@.contains(n)
                    &&& never_read(all, n) ==> dead@.contains(n)
                },
        decreases v.len() - i,
    {
        assert(all[i as int] == v@[i as int]@);
        if let Some(n) = as_defined(&v[i]) {
            if is_inlinable_name(n) {
                let defs: usize = count_defs(v, n);
                let uses: usize = count_uses(v, n);
                if defs == 1 && uses == 1 {
                    once.insert(n);
                }
                if defs == 1 && uses > 1 && uses <= 48 {
                    often.insert(n);
                }
                if defs >= 1 && uses == 0 {
                    dead.insert(n);
                }
            }
        }
        i += 1;
    }
    assert forall|n: Seq<char>|
        once@.contains(n) == read_once(all, n) && often@.contains(n) == read_often(all, n)
            && dead@.contains(n) == never_read(all, n) by {
        if defs_of(all, n) > 0 {
            lemma_defined(all, n);
            let k = choose|k: int| 0 <= k < all.len() && #[trigger] defined(all[k]) == Some(n);
            let hit = read_once(all, n);
            assert(defined(all[k]) == Some(n));
        }
    }
    let r = CandidateSets { once, often, dead };
    assert(r@.once =~= candidates(all).once);
    assert(r@.often =~= candidates(all).often);
    assert(r@.dead =~= candidates(all).dead);
    r
}

fn is_simple_pure_expr_depth(e: &Expression, depth: u8) -> (r: bool)
    requires
        depth <= 5,
    ensures
        r == simple_pure(e@, depth as nat),
    decreases e,
{
    if depth > 4 {
        return false;
    }
    proof {
        reveal_with_fuel(Expression::view, 2);
        reveal_with_fuel(PropertyKey::view, 2);
    }
    match e {
        Expression::Value(v) => {
            assert(e@ == Expr::Value(v@));
            let plain: bool = match v {
                Value::Register(_) => false,
                Value::ClosureVar { .. } => false,
                _ => true,
            };
            assert(plain == !(v@ is Register || v@ is ClosureVar));
            plain
        },
        Expression::Member { object, property, .. } => {
            if !is_simple_pure_expr_depth(object, depth + 1) {
                return false;
            }
            match property {
                PropertyKey::Computed(k) => is_simple_pure_expr_depth(k, depth + 1),
                _ => true,
            }
        },
        Expression::Unary { operand, .. } => is_simple_pure_expr_depth(operand, depth + 1),
        Expression::Binary { left, right, .. } => is_simple_pure_expr_depth(left, depth + 1)
            && is_simple_pure_expr_depth(right, depth + 1),
        _ => false,
    }
}

fn is_simple_pure_expr(e: &Expression) -> (r: bool)
    ensures
        r == simple_pure(e@, 0),
{
    is_simple_pure_expr_depth(e, 0)
}

fn is_constant_expr(e: &Expression) -> (r: bool)
    ensures
        r == constant(e@),
{
    match e {
        Expression::Value(Value::Constant(_)) => true,
        _ => false,
    }
}

fn insert_value(p: &mut Vec<(String, Expression)>, n: &String, e: Expression)
    ensures
        model::attrs(final(p)@) == with_value(model::attrs(old(p)@), n@, e@),
{
    let ghost all = model::attrs(p@);
    let ghost raw = p@;
    let ghost v = e@;
    let mut i: usize = p.len();
    assert(all.take(i as int) =~= all);
    assert(with_value(all, n@, v) =~= with_value(all.take(i as int), n@, v) + all.skip(i as int));
    while i > 0
        invariant
            i <= p.len(),
            p@ == raw,
            raw == old(p)@,
            all == model::attrs(raw),
            v == e@,
            with_value(all, n@, v) == with_value(all.take(i as int), n@, v) + all.skip(i as int),
        ensures
            i <= p.len(),
            p@ == raw,
            with_value(all, n@, v) == all.take(i as int).push((n@, v)) + all.skip(i as int),
        decreases i,
    {
        let ghost t = all.take(i as int);
        assert(t.last() == model::attr(raw[i - 1]));
        assert(t.drop_last() =~= all.take(i - 1));
        if text::same(&p[i - 1].0, n) {
            assert(with_value(t, n@, v) == t.drop_last().push((n@, v)));
            p.set(i - 1, (n.clone(), e));
            assert(model::attrs(p@) =~= t.drop_last().push((n@, v)) + all.skip(i as int));
            return;
        }
        if text::is_before(&p[i - 1].0, n) {
            break;
        }
        assert(with_value(all.take(i - 1), n@, v).push(t.last()) + all.skip(i as int)
            =~= with_value(all.take(i - 1), n@, v) + all.skip(i - 1));
        i -= 1;
        if i == 0 {
            assert(all.take(0) =~= Seq::empty());
            assert(with_value(all.take(0), n@, v) =~= all.take(0).push((n@, v)));
        }
    }
    p.insert(i, (n.clone(), e));
    assert(model::attrs(p@) =~= all.take(i as int).push((n@, v)) + all.skip(i as int));
}

fn drop_used(p: &Vec<(String, Expression)>, v: &Vec<Occurrence>) -> (r: Vec<(String, Expression)>)
    ensures
        model::attrs(r@) == unused(model::attrs(p@), occurs::occs(v@)),
{
    let ghost all = model::attrs(p@);
    let mut out: Vec<(String, Expression)> = Vec::new();
    let mut i: usize = 0;
    assert(model::attrs(out@) =~= Seq::empty());
    while i < p.len()
        invariant
            i <= p.len(),
            all == model::attrs(p@),
            model::attrs(out@) == unused(all.take(i as int), occurs::occs(v@)),
        decreases p.len() - i,
    {
        assert(all.take(i + 1).drop_last() =~= all.take(i as int));
        assert(all[i as int] == model::attr(p@[i as int]));
        let ghost before = out@;
        if !occurs::has(v, &Occurrence::Use(Value::Variable(p[i].0.clone()))) {
            out.push((p[i].0.clone(), p[i].1.clone()));
            assert(model::attrs(out@) =~= model::attrs(before).push(all[i as int]));
        }
        i += 1;
    }
    assert(all.take(all.len() as int) =~= all);
    out
}

fn inner_occurrences(s: &Statement) -> (r: Vec<Occurrence>)
    ensures
        occurs::occs(r@) == inner_atoms(s@),
{
    let mut out: Vec<Occurrence> = Vec::new();
    assert(occurs::occs(out@) =~= Seq::empty());
    match s {
        Statement::If { then_body, else_body, .. } => {
            occurs::push_stmts(then_body, &mut out);
            occurs::push_stmts(else_body, &mut out);
        },
        Statement::ForIn { body, .. } => {
            occurs::push_stmts(body, &mut out);
        },
        Statement::ForOf { body, .. } => {
            occurs::push_stmts(body, &mut out);
        },
        Statement::Switch { cases, default, .. } => {
            occurs::push_cases(cases, &mut out);
            occurs::push_opt_stmts(default, &mut out);
        },
        Statement::While { .. }
        | Statement::DoWhile { .. }
        | Statement::For { .. }
        | Statement::Block(_)
        | Statement::TryCatch { .. } => {
            occurs::push_stmt(s, &mut out);
        },
        _ => {},
    }
    assert(occurs::occs(out@) =~= inner_atoms(s@));
    out
}

fn uses_any(p: &Vec<(String, Expression)>, v: &Vec<Occurrence>) -> (r: bool)
    ensures
        r == any_used(model::attrs(p@), occurs::occs(v@)),
{
    let ghost all = model::attrs(p@);
    let mut i: usize = 0;
    let mut found: bool = false;
    while i < p.len()
        invariant
            i <= p.len(),
            all == model::attrs(p@),
            found == any_used(all.take(i as int), occurs::occs(v@)),
        decreases p.len() - i,
    {
        assert(all.take(i + 1).drop_last() =~= all.take(i as int));
        assert(all[i as int] == model::attr(p@[i as int]));
        if occurs::has(v, &Occurrence::Use(Value::Variable(p[i].0.clone()))) {
            found = true;
        }
        i += 1;
    }
    assert(all.take(all.len() as int) =~= all);
    found
}

fn has_effects(p: &Vec<(String, Expression)>) -> (r: bool)
    ensures
        r == any_effects(model::attrs(p@)),
{
    let ghost all = model::attrs(p@);
    let mut i: usize = 0;
    let mut found: bool = false;
    while i < p.len()
        invariant
            i <= p.len(),
            all == model::attrs(p@),
            found == any_effects(all.take(i as int)),
        decreases p.len() - i,
    {
        assert(all.take(i + 1).drop_last() =~= all.take(i as int));
        assert(all[i as int] == model::attr(p@[i as int]));
        if p[i].1.has_side_effects() {
            found = true;
        }
        i += 1;
    }
    assert(all.take(all.len() as int) =~= all);
    found
}

struct Worker {
    often: Vec<(String, Expression)>,
    pending: Vec<(String, Expression)>,
    out: Vec<Statement>,
}

impl Worker {
    closed spec fn view(&self) -> Work {
        Work {
            often: model::attrs(self.often@),
            pending: model::attrs(self.pending@),
            out: model::stmts(self.out@),
        }
    }

    fn flush_pending(&mut self)
        ensures
            final(self)@ == flushed(old(self)@),
    {
        let ghost first = self@;
        let mut i: usize = 0;
        assert(first.out + assignments(first.pending).take(0) =~= first.out);
        while i < self.pending.len()
            invariant
                i <= self.pending.len(),
                self@.often == first.often,
                self@.pending == first.pending,
                self@.out == first.out + assignments(first.pending).take(i as int),
            decreases self.pending.len() - i,
        {
            let ghost before = self@.out;
            let ghost d = assignments(first.pending);
            assert(first.pending[i as int] == model::attr(self.pending@[i as int]));
            let s = Statement::Assign {
                target: AssignTarget::Variable(self.pending[i].0.clone()),
                value: self.pending[i].1.clone(),
            };
            let ghost x = s@;
            assert(x == d[i as int]);
            self.out.push(s);
            assert(self@.out =~= before.push(x));
            assert(d.take(i + 1) =~= d.take(i as int).push(x));
            assert(first.out + d.take(i + 1) =~= (first.out + d.take(i as int)).push(x));
            i += 1;
        }
        assert(assignments(first.pending).take(first.pending.len() as int) =~= assignments(
            first.pending,
        ));
        self.pending = Vec::new();
        assert(self@.pending =~= Seq::empty());
    }

    fn settle(&self, e: &Expression) -> (r: Expression)
        ensures
            r@ == settled(self@, e@),
    {
        substitute_expr(&self.often, &substitute_expr(&self.pending, e))
    }

    fn emit(&mut self, s: &Statement)
        ensures
            final(self)@ == emitted(old(self)@, s@),
    {
        if uses_any(&self.pending, &inner_occurrences(s)) {
            self.flush_pending();
        }
        let ghost before = self@;
        assert(before == ready(old(self)@, s@));
        let t = substitute_stmt(&self.often, &substitute_stmt(&self.pending, s));
        let ghost x = t@;
        self.pending = drop_used(&self.pending, &occurs::of_stmt(s));
        self.out.push(t);
        assert(self@.out =~= before.out.push(x));
    }

    fn defer(&mut self, n: &String, e: &Expression)
        ensures
            final(self)@ == defer(old(self)@, n@, e@),
    {
        let v = self.settle(e);
        let ghost x = v@;
        self.pending = drop_used(&self.pending, &occurs::of_expr(e));
        let ghost before = self@;
        assert(before == spent(old(self)@, e@));
        if is_constant_expr(&v) {
            self.often.push((n.clone(), v));
            assert(self@.often =~= before.often.push((n@, x)));
        } else {
            if v.has_side_effects() && has_effects(&self.pending) {
                self.flush_pending();
            }
            insert_value(&mut self.pending, n, v);
        }
    }

    fn spread(&mut self, n: &String, e: &Expression)
        ensures
            final(self)@ == spread(old(self)@, n@, e@),
    {
        let v = self.settle(e);
        let ghost x = v@;
        self.pending = drop_used(&self.pending, &occurs::of_expr(e));
        let ghost before = self@;
        assert(before == spent(old(self)@, e@));
        if is_simple_pure_expr(&v) {
            self.often.push((n.clone(), v));
            assert(self@.often =~= before.often.push((n@, x)));
        } else {
            let s = Statement::Assign { target: AssignTarget::Variable(n.clone()), value: v };
            let ghost y = s@;
            self.out.push(s);
            assert(self@.out =~= before.out.push(y));
        }
    }

    fn step(&mut self, c: &CandidateSets, s: &Statement)
        ensures
            final(self)@ == inline_step(c@, old(self)@, s@),
    {
        let ghost before = self@;
        match as_binding(s) {
            Some((n, e)) => {
                let function: bool = match e {
                    Expression::Function { .. } => true,
                    _ => false,
                };
                if function {
                    self.emit(s);
                } else if c.once.contains(n) {
                    self.defer(n, e);
                } else if c.often.contains(n) {
                    self.spread(n, e);
                } else if c.dead.contains(n) {
                    if e.has_side_effects() {
                        let v = Statement::Expr(self.settle(e));
                        let ghost x = v@;
                        self.pending = drop_used(&self.pending, &occurs::of_expr(e));
                        self.out.push(v);
                        assert(self@.out =~= before.out.push(x));
                    }
                } else {
                    self.emit(s);
                }
            },
            None => self.emit(s),
        }
    }
}

/// Whether every statement of a list weighs at most `n`.
pub open spec fn all_within(t: Seq<Stmt>, n: nat) -> bool {
    forall|i: int| 0 <= i < t.len() ==> weight::weight_stmt(#[trigger] t[i]) <= n
}

proof fn lemma_flush_within(w: Work, n: nat)
    requires
        all_within(w.out, n),
        n >= 1,
    ensures
        all_within(flushed(w).out, n),
{
    let t = flushed(w).out;
    assert forall|i: int| 0 <= i < t.len() implies weight::weight_stmt(#[trigger] t[i]) <= n by {
        if i < w.out.len() {
            assert(t[i] == w.out[i]);
        }
    }
}

/// The pass makes no statement heavier than the list it works on.
pub proof fn lemma_walk_within(c: Candidates, s: Seq<Stmt>)
    ensures
        all_within(inline_walk(c, s).out, weight::weight(s)),
        all_within(flushed(inline_walk(c, s)).out, weight::weight(s)),
    decreases s.len(),
{
    let n = weight::weight(s);
    let r = inline_walk(c, s);
    if s.len() > 0 {
        let x = s.last();
        let w = inline_walk(c, s.drop_last());
        lemma_walk_within(c, s.drop_last());
        weight::lemma_weight_positive(x);
        assert(all_within(w.out, n));
        lemma_flush_within(w, n);
        let f = ready(w, x);
        vars::lemma_sub_keeps_stmt(f.pending, x);
        vars::lemma_sub_keeps_stmt(f.often, vars::sub_stmt(f.pending, x));
        assert(weight::weight_stmt(emitted(w, x).out.last()) <= n);
        assert(all_within(emitted(w, x).out, n));
        if let Some(b) = bindings::binding(x) {
            let v = settled(w, b.1);
            assert(weight::weight_stmt(Stmt::Assign { target: Target::Variable(b.0), value: v })
                == 1);
            lemma_flush_within(spent(w, b.1), n);
            assert(all_within(spread(w, b.0, b.1).out, n));
            assert(all_within(defer(w, b.0, b.1).out, n));
            assert(weight::weight_stmt(Stmt::Expr(v)) == 1);
            assert(all_within(w.out.push(Stmt::Expr(v)), n));
        }
        lemma_flush_within(r, n);
    } else {
        assert(assignments(r.pending) =~= Seq::empty());
        assert(flushed(r).out =~= Seq::empty());
    }
}

/// Works on a list with the candidates of the whole function.
fn inline_named_with_candidates(v: &Vec<Statement>, c: &CandidateSets) -> (r: Vec<Statement>)
    ensures
        model::stmts(r@) == inlined(c@, model::stmts(v@)),
    decreases weight::weight(model::stmts(v@)), 2nat, 0nat,
{
    let ghost s = model::stmts(v@);
    if c.is_empty() {
        return clone_stmts(v);
    }
    let mut w = Worker { often: Vec::new(), pending: Vec::new(), out: Vec::new() };
    assert(w@.often =~= Seq::empty());
    assert(w@.pending =~= Seq::empty());
    assert(w@.out =~= Seq::empty());
    let mut i: usize = 0;
    while i < v.len()
        invariant
            i <= v.len(),
            s == model::stmts(v@),
            w@ == inline_walk(c@, s.take(i as int)),
        decreases v.len() - i,
    {
        assert(s.take(i + 1).drop_last() =~= s.take(i as int));
        assert(s[i as int] == v@[i as int]@);
        w.step(c, &v[i]);
        i += 1;
    }
    assert(s.take(s.len() as int) =~= s);
    w.flush_pending();
    proof {
        lemma_walk_within(c@, s);
    }
    let t = w.out;
    let ghost all = model::stmts(t@);
    let ghost n = weight::weight(s);
    assert(all == flushed(inline_walk(c@, s)).out);
    let mut out: Vec<Statement> = Vec::new();
    let mut k: usize = 0;
    assert(model::stmts(out@) =~= Seq::empty());
    while k < t.len()
        invariant
            k <= t.len(),
            all == model::stmts(t@),
            n == weight::weight(model::stmts(v@)),
            all_within(all, n),
            model::stmts(out@) == inlined_bodies(c@, all.take(k as int), n),
        decreases t.len() - k,
    {
        assert(all.take(k + 1).drop_last() =~= all.take(k as int));
        assert(all[k as int] == t@[k as int]@);
        let ghost before = out@;
        let x = recurse_inline_blocks(&t[k], c);
        let ghost y = x@;
        out.push(x);
        assert(model::stmts(out@) =~= model::stmts(before).push(y));
        k += 1;
    }
    assert(all.take(all.len() as int) =~= all);
    cleanup_noise(out)
}

fn recurse_inline_blocks(s: &Statement, c: &CandidateSets) -> (r: Statement)
    ensures
        r@ == inlined_stmt(c@, s@),
    decreases weight::weight_stmt(s@), 0nat, 0nat,
{
    match s {
        Statement::If { condition, then_body, else_body } => Statement::If {
            condition: condition.clone(),
            then_body: inline_named_with_candidates(then_body, c),
            else_body: inline_named_with_candidates(else_body, c),
        },
        Statement::Block(body) => Statement::Block(inline_named_with_candidates(body, c)),
        Statement::TryCatch { try_body, catch_param, catch_body, finally_body } => {
            Statement::TryCatch {
                try_body: inline_named_with_candidates(try_body, c),
                catch_param: crate::ir::cloning::clone_opt_text(catch_param),
                catch_body: inline_named_with_candidates(catch_body, c),
                finally_body: inline_named_with_candidates(finally_body, c),
            }
        },
        Statement::Switch { discriminant, cases, default } => Statement::Switch {
            discriminant: discriminant.clone(),
            cases: inline_cases(cases, c),
            default: match default {
                Some(d) => Some(inline_named_with_candidates(d, c)),
                None => None,
            },
        },
        _ => s.clone(),
    }
}

proof fn lemma_case_weight(s: Seq<(Expr, Seq<Stmt>)>, i: int)
    requires
        0 <= i < s.len(),
    ensures
        weight::weight(s[i].1) <= weight::weight_cases(s),
    decreases s.len(),
{
    if i < s.len() - 1 {
        assert(s.drop_last()[i] == s[i]);
        lemma_case_weight(s.drop_last(), i);
    }
}

fn inline_cases(
    v: &Vec<(Expression, Vec<Statement>)>,
    c: &CandidateSets,
) -> (r: Vec<(Expression, Vec<Statement>)>)
    ensures
        model::case_arms(r@) == inlined_cases(c@, model::case_arms(v@)),
    decreases weight::weight_cases(model::case_arms(v@)), 3nat, v@.len(),
{
    let ghost all = model::case_arms(v@);
    let mut out: Vec<(Expression, Vec<Statement>)> = Vec::new();
    let mut i: usize = 0;
    assert(model::case_arms(out@) =~= Seq::empty());
    while i < v.len()
        invariant
            i <= v.len(),
            all == model::case_arms(v@),
            model::case_arms(out@) == inlined_cases(c@, all.take(i as int)),
        decreases v.len() - i,
    {
        assert(all.take(i + 1).drop_last() =~= all.take(i as int));
        assert(all[i as int] == model::case_arm(v@[i as int]));
        proof {
            lemma_case_weight(all, i as int);
        }
        let ghost before = out@;
        let body = inline_named_with_candidates(&v[i].1, c);
        let ghost b = model::stmts(body@);
        out.push((v[i].0.clone(), body));
        assert(model::case_arms(out@) =~= model::case_arms(before).push((all[i as int].0, b)));
        i += 1;
    }
    assert(all.take(all.len() as int) =~= all);
    out
}

/// Inlines the temporaries of a function that are read once, drops those that are never read,
/// and writes simple values at each of their few uses.
pub fn inline_named_variables(stmts: Vec<Statement>) -> (r: Vec<Statement>)
    ensures
        model::stmts(r@) == inlined(
            candidates(occurs::stmts_atoms(model::stmts(stmts@))),
            model::stmts(stmts@),
        ),
{
    let v = occurs::of_stmts(&stmts);
    let c = find_candidates(&v);
    inline_named_with_candidates(&stmts, &c)
}

/// Without candidates nothing changes.
pub proof fn lemma_no_candidates(s: Seq<Stmt>)
    requires
        no_candidates(candidates(occurs::stmts_atoms(s))),
    ensures
        inlined(candidates(occurs::stmts_atoms(s)), s) == s,
{
}

/// The statement itself is all that a definition with another name leaves of it: a variable that
/// is no temporary keeps its definition.
pub proof fn lemma_named_definitions_stay(atoms: Seq<Atom>, w: Work, s: Stmt)
    requires
        bindings::binding(s) matches Some(b) && !inlinable(b.0),
    ensures
        inline_step(candidates(atoms), w, s) == emitted(w, s),
{
}

/// A function definition always stays: it may be called from another scope.
pub proof fn lemma_functions_stay(atoms: Seq<Atom>, w: Work, s: Stmt)
    requires
        bindings::binding(s) matches Some(b) && b.1 is Function,
    ensures
        inline_step(candidates(atoms), w, s) == emitted(w, s),
{
}

/// A value with side effects is never dropped.
pub proof fn lemma_effects_stay(c: Candidates, w: Work, s: Stmt)
    requires
        bindings::binding(s) matches Some(b) && effects::effects(b.1) && c.dead.contains(b.0)
            && !c.once.contains(b.0) && !c.often.contains(b.0),
    ensures
        inline_step(c, w, s).out.len() == w.out.len() + 1,
{
}

proof fn lemma_other_start(n: Seq<char>, p: Seq<char>)
    requires
        n.len() > 0,
        p.len() > 0,
        n[0] != p[0],
    ensures
        !text::has_prefix(n, p),
        !stem_name(n, p),
{
    if text::has_prefix(n, p) {
        assert(n.subrange(0, p.len() as int)[0] == n[0]);
    }
}

proof fn lemma_absent(n: Seq<char>, p: Seq<char>)
    requires
        p.len() > 0,
        forall|i: int| 0 <= i < n.len() ==> #[trigger] n[i] != p[0],
    ensures
        !text::has_part(n, p),
{
    text::lemma_find_from(n, p, 0);
    if let Some(k) = text::find_from(n, p, 0) {
        assert(n.subrange(k, k + p.len())[0] == n[k]);
    }
}

/// A captured variable (`closure_0`, `closure_1_2`) is no temporary: another function may read it,
/// so it is neither inlined nor dropped.
pub proof fn lemma_captured_variables_are_kept(rest: Seq<char>)
    requires
        forall|i: int| 0 <= i < rest.len() ==> text::ascii_digit(#[trigger] rest[i]) || rest[i] == '_',
    ensures
        !inlinable("closure_"@ + rest),
{
    let n = "closure_"@ + rest;
    reveal_strlit("closure_");
    assert(n[0] == 'c');
    assert forall|i: int| 0 <= i < n.len() implies #[trigger] n[i] != 'R' && n[i] != 'P' && n[i]
        != 'C' && n[i] != 'H' && n[i] != 'W' by {
        if i >= 8 {
            assert(n[i] == rest[i - 8]);
        }
    }
    reveal_strlit("tmp");
    lemma_other_start(n, "tmp"@);
    reveal_strlit("r");
    lemma_other_start(n, "r"@);
    reveal_strlit("num");
    lemma_other_start(n, "num"@);
    reveal_strlit("str");
    lemma_other_start(n, "str"@);
    reveal_strlit("obj");
    lemma_other_start(n, "obj"@);
    reveal_strlit("fn");
    lemma_other_start(n, "fn"@);
    reveal_strlit("arr");
    lemma_other_start(n, "arr"@);
    reveal_strlit("bool");
    lemma_other_start(n, "bool"@);
    reveal_strlit("length");
    lemma_other_start(n, "length"@);
    reveal_strlit("iter");
    lemma_other_start(n, "iter"@);
    reveal_strlit("promise");
    lemma_other_start(n, "promise"@);
    reveal_strlit("date");
    lemma_other_start(n, "date"@);
    reveal_strlit("err");
    lemma_other_start(n, "err"@);
    reveal_strlit("map");
    lemma_other_start(n, "map"@);
    reveal_strlit("set");
    lemma_other_start(n, "set"@);
    reveal_strlit("key");
    lemma_other_start(n, "key"@);
    reveal_strlit("val");
    lemma_other_start(n, "val"@);
    reveal_strlit("idx");
    lemma_other_start(n, "idx"@);
    reveal_strlit("ref");
    lemma_other_start(n, "ref"@);
    reveal_strlit("flag");
    lemma_other_start(n, "flag"@);
    reveal_strlit("_default");
    lemma_other_start(n, "_default"@);
    reveal_strlit("_interop");
    lemma_other_start(n, "_interop"@);
    reveal_strlit("_extends");
    lemma_other_start(n, "_extends"@);
    reveal_strlit("Result");
    lemma_absent(n, "Result"@);
    reveal_strlit("Return");
    lemma_absent(n, "Return"@);
    reveal_strlit("Promise");
    lemma_absent(n, "Promise"@);
    reveal_strlit("Callback");
    lemma_absent(n, "Callback"@);
    reveal_strlit("Handler");
    lemma_absent(n, "Handler"@);
    reveal_strlit("Wrapper");
    lemma_absent(n, "Wrapper"@);
}

} // verus!
