//! The iterator protocol of current bytecode.
//!
//! `for (x of src)` is lowered to
//!
//! ```text
//! iter = src[Symbol.iterator]()
//! val  = iter.next()
//! copy = iter
//! while (copy !== undefined) {
//!     try { <body using val> } catch (e) { iter.return(); throw e }
//! }
//! ```

use super::{is_iterator_call, name_of_item, unwrap_iterator_body};
use crate::ir::cloning::{clone_opt_expr, clone_opt_stmt, clone_opt_text};
use crate::ir::model;
use crate::ir::model::{Const, Expr, Key, Stmt, Target, Val};
use crate::ir::naming;
use crate::ir::naming::rename_registers;
use crate::ir::weight;
use crate::ir::{
    AssignTarget, BinaryOp, Constant, Expression, PropertyKey, Statement, UnaryOp, Value,
};
use crate::text;
use std::collections::BTreeMap;
use vstd::prelude::*;

verus! {

/// Whether an expression is `iter.next()` for a register of the list.
pub open spec fn next_call(e: Expr, aliases: Seq<u32>) -> bool {
    match e {
        Expr::Call { callee, arguments } => match *callee {
            Expr::Member { object, property: Key::Ident(p), .. } => match *object {
                Expr::Value(Val::Register(r)) => arguments.len() == 0 && p == "next"@
                    && aliases.contains(r),
                _ => false,
            },
            _ => false,
        },
        _ => false,
    }
}

/// What is known of the iterator protocol up to some statement.
#[verifier::ext_equal]
pub struct Plumbing {
    /// The registers that hold the iterator.
    pub aliases: Seq<u32>,
    /// The register that holds the current value.
    pub value: Option<u32>,
    /// The statements that are no part of the protocol.
    pub kept: Seq<Stmt>,
}

/// The plumbing with one more statement, where the statement is part of it.
pub open spec fn plumb(p: Plumbing, s: Stmt) -> Option<Plumbing> {
    match s {
        Stmt::Assign { target: Target::Register(r), value } => if next_call(value, p.aliases) {
            Some(Plumbing { value: Some(r), ..p })
        } else {
            match value {
                Expr::Value(Val::Register(src)) => if p.aliases.contains(src) {
                    Some(Plumbing { aliases: p.aliases.push(r), ..p })
                } else {
                    Some(Plumbing { kept: p.kept.push(s), ..p })
                },
                Expr::Value(Val::Constant(Const::Undefined)) => Some(
                    Plumbing { kept: p.kept.push(s), ..p },
                ),
                _ => None,
            }
        },
        Stmt::Comment(_) => Some(p),
        _ => None,
    }
}

/// The plumbing from position `i` on, and where it ends.
pub open spec fn plumbed(s: Seq<Stmt>, i: int, p: Plumbing) -> (Plumbing, int)
    decreases s.len() - i,
{
    if 0 <= i < s.len() {
        match plumb(p, s[i]) {
            Some(q) => plumbed(s, i + 1, q),
            None => (p, i),
        }
    } else {
        (p, i)
    }
}

/// Whether an expression is one of the registers.
pub open spec fn touches(e: Expr, aliases: Seq<u32>) -> bool {
    match e {
        Expr::Value(Val::Register(r)) => aliases.contains(r),
        _ => false,
    }
}

/// Whether a condition is the done check of an iterator: `iter !== undefined` or its equal.
pub open spec fn done_check(e: Expr, aliases: Seq<u32>) -> bool {
    match e {
        Expr::Binary { op: BinaryOp::StrictNeq, left, right } => touches(*left, aliases) || touches(
            *right,
            aliases,
        ),
        Expr::Unary { op: UnaryOp::Not, operand } => match *operand {
            Expr::Binary { op: BinaryOp::StrictEq, left, right } => touches(*left, aliases)
                || touches(*right, aliases),
            _ => false,
        },
        _ => false,
    }
}

/// A loop found: what takes its place.
#[verifier::ext_equal]
pub struct Found {
    /// The statements of the plumbing that stay.
    pub kept: Seq<Stmt>,
    pub iterable: Expr,
    /// The register that holds the current value.
    pub value: u32,
    pub body: Seq<Stmt>,
    /// The position after the loop.
    pub end: int,
}

/// The loop whose protocol starts at position `i`.
pub open spec fn loop_at(s: Seq<Stmt>, i: int) -> Option<Found> {
    match s[i] {
        Stmt::Assign { target: Target::Register(r), value } => match super::iterated(value) {
            Some(source) => {
                let (p, end) = plumbed(
                    s,
                    i + 1,
                    Plumbing { aliases: seq![r], value: None, kept: Seq::empty() },
                );
                if end < s.len() && p.value is Some {
                    match s[end] {
                        Stmt::While { condition, body } => if done_check(condition, p.aliases) {
                            Some(
                                Found {
                                    kept: p.kept,
                                    iterable: source,
                                    value: p.value->0,
                                    body: super::unwrapped(body),
                                    end: end + 1,
                                },
                            )
                        } else {
                            None
                        },
                        _ => None,
                    }
                } else {
                    None
                }
            },
            None => None,
        },
        _ => None,
    }
}

/// The body of a loop with its value register named.
pub open spec fn named_body(f: Found) -> Seq<Stmt> {
    naming::nam_stmts(Map::empty().insert(f.value, super::item_name(f.value)), f.body)
}

/// The loops of a list recovered, nested bodies first.
pub open spec fn for_of(s: Seq<Stmt>) -> Seq<Stmt>
    decreases weight::weight(s), 3nat, 0nat,
{
    let t = for_of_inside(s);
    if weight::weight(t) <= weight::weight(s) {
        for_of_from(t, 0)
    } else {
        t
    }
}

/// The list with the loops of nested bodies recovered.
pub open spec fn for_of_inside(s: Seq<Stmt>) -> Seq<Stmt>
    decreases weight::weight(s), 1nat, 0nat,
{
    if s.len() == 0 {
        Seq::empty()
    } else {
        proof {
            weight::lemma_weight_positive(s.last());
        }
        for_of_inside(s.drop_last()).push(for_of_stmt(s.last()))
    }
}

/// The list from position `i` on with its own loops recovered.
pub open spec fn for_of_from(s: Seq<Stmt>, i: int) -> Seq<Stmt>
    decreases weight::weight(s), 2nat, s.len() - i,
{
    if 0 <= i < s.len() {
        match loop_at(s, i) {
            Some(f) => if i < f.end <= s.len() && weight::weight(named_body(f)) < weight::weight(
                s,
            ) {
                (f.kept + seq![
                    Stmt::ForOf {
                        variable: super::item_name(f.value),
                        iterable: f.iterable,
                        body: for_of(named_body(f)),
                    },
                ]) + for_of_from(s, f.end)
            } else {
                Seq::empty()
            },
            None => seq![s[i]] + for_of_from(s, i + 1),
        }
    } else {
        Seq::empty()
    }
}

pub open spec fn for_of_stmt(s: Stmt) -> Stmt
    decreases weight::weight_stmt(s), 0nat, 0nat,
{
    match s {
        Stmt::While { condition, body } => Stmt::While { condition, body: for_of(body) },
        Stmt::DoWhile { body, condition } => Stmt::DoWhile { body: for_of(body), condition },
        Stmt::If { condition, then_body, else_body } => Stmt::If {
            condition,
            then_body: for_of(then_body),
            else_body: for_of(else_body),
        },
        Stmt::For { init, condition, update, body } => Stmt::For {
            init,
            condition,
            update,
            body: for_of(body),
        },
        Stmt::ForOf { variable, iterable, body } => Stmt::ForOf {
            variable,
            iterable,
            body: for_of(body),
        },
        Stmt::ForIn { variable, object, body } => Stmt::ForIn {
            variable,
            object,
            body: for_of(body),
        },
        Stmt::Block(body) => Stmt::Block(for_of(body)),
        Stmt::TryCatch { try_body, catch_param, catch_body, finally_body } => Stmt::TryCatch {
            try_body: for_of(try_body),
            catch_param,
            catch_body: for_of(catch_body),
            finally_body: for_of(finally_body),
        },
        _ => s,
    }
}

proof fn lemma_plumbed(s: Seq<Stmt>, i: int, p: Plumbing)
    requires
        0 <= i <= s.len(),
    ensures
        i <= plumbed(s, i, p).1 <= s.len(),
        weight::weight(plumbed(s, i, p).0.kept) <= weight::weight(p.kept) + weight::weight(
            s.subrange(i, plumbed(s, i, p).1),
        ),
    decreases s.len() - i,
{
    if i < s.len() {
        if let Some(q) = plumb(p, s[i]) {
            lemma_plumbed(s, i + 1, q);
            let end = plumbed(s, i + 1, q).1;
            assert(s.subrange(i, end) =~= seq![s[i]] + s.subrange(i + 1, end));
            weight::lemma_weight_append(seq![s[i]], s.subrange(i + 1, end));
            weight::lemma_weight_push(p.kept, s[i]);
            weight::lemma_weight_push(Seq::empty(), s[i]);
            assert(Seq::<Stmt>::empty().push(s[i]) =~= seq![s[i]]);
        }
    }
}

/// A loop found ends behind its start, and what takes its place weighs no more.
pub proof fn lemma_loop_at(s: Seq<Stmt>, i: int)
    requires
        0 <= i < s.len(),
    ensures
        loop_at(s, i) matches Some(f) ==> {
            &&& i < f.end <= s.len()
            &&& weight::weight(f.kept) + 1 + weight::weight(named_body(f)) <= weight::weight(
                s.subrange(i, f.end),
            )
            &&& weight::weight(named_body(f)) < weight::weight(s)
        },
{
    if let Some(f) = loop_at(s, i) {
        let r = match s[i] {
            Stmt::Assign { target: Target::Register(r), .. } => r,
            _ => 0,
        };
        let first = Plumbing { aliases: seq![r], value: None, kept: Seq::empty() };
        let (p, end) = plumbed(s, i + 1, first);
        lemma_plumbed(s, i + 1, first);
        let body = match s[end] {
            Stmt::While { body, .. } => body,
            _ => Seq::empty(),
        };
        super::lemma_unwrapped(body);
        weight::lemma_naming_keeps_weight(
            Map::empty().insert(f.value, super::item_name(f.value)),
            f.body,
        );
        assert(s.subrange(i, f.end) =~= (seq![s[i]] + s.subrange(i + 1, end)).push(s[end]));
        weight::lemma_weight_push(seq![s[i]] + s.subrange(i + 1, end), s[end]);
        weight::lemma_weight_append(seq![s[i]], s.subrange(i + 1, end));
        weight::lemma_weight_part(s, i, f.end);
    }
}

/// Recovering loops adds no statements.
pub proof fn lemma_for_of_weight(s: Seq<Stmt>)
    ensures
        weight::weight(for_of_inside(s)) <= weight::weight(s),
        weight::weight(for_of(s)) <= weight::weight(s),
    decreases weight::weight(s), 3nat, 0nat,
{
    lemma_inside_weight(s);
    let t = for_of_inside(s);
    lemma_from_weight(t, 0);
    assert(t.subrange(0, t.len() as int) =~= t);
}

proof fn lemma_inside_weight(s: Seq<Stmt>)
    ensures
        weight::weight(for_of_inside(s)) <= weight::weight(s),
    decreases weight::weight(s), 1nat, 0nat,
{
    if s.len() > 0 {
        weight::lemma_weight_positive(s.last());
        lemma_inside_weight(s.drop_last());
        lemma_stmt_weight(s.last());
        weight::lemma_weight_push(for_of_inside(s.drop_last()), for_of_stmt(s.last()));
    }
}

proof fn lemma_from_weight(s: Seq<Stmt>, i: int)
    requires
        0 <= i <= s.len(),
    ensures
        weight::weight(for_of_from(s, i)) <= weight::weight(s.subrange(i, s.len() as int)),
    decreases weight::weight(s), 2nat, s.len() - i,
{
    if i < s.len() {
        let n = s.len() as int;
        lemma_loop_at(s, i);
        match loop_at(s, i) {
            Some(f) => {
                lemma_from_weight(s, f.end);
                lemma_for_of_weight(named_body(f));
                let made = Stmt::ForOf {
                    variable: super::item_name(f.value),
                    iterable: f.iterable,
                    body: for_of(named_body(f)),
                };
                assert(s.subrange(i, n) =~= s.subrange(i, f.end) + s.subrange(f.end, n));
                weight::lemma_weight_append(s.subrange(i, f.end), s.subrange(f.end, n));
                assert(f.kept + seq![made] =~= f.kept.push(made));
                weight::lemma_weight_push(f.kept, made);
                weight::lemma_weight_append(f.kept + seq![made], for_of_from(s, f.end));
            },
            None => {
                lemma_from_weight(s, i + 1);
                assert(s.subrange(i, n) =~= seq![s[i]] + s.subrange(i + 1, n));
                weight::lemma_weight_append(seq![s[i]], s.subrange(i + 1, n));
                weight::lemma_weight_append(seq![s[i]], for_of_from(s, i + 1));
            },
        }
    }
}

proof fn lemma_stmt_weight(s: Stmt)
    ensures
        weight::weight_stmt(for_of_stmt(s)) <= weight::weight_stmt(s),
    decreases weight::weight_stmt(s), 0nat, 0nat,
{
    match s {
        Stmt::While { body, .. } => lemma_for_of_weight(body),
        Stmt::DoWhile { body, .. } => lemma_for_of_weight(body),
        Stmt::If { then_body, else_body, .. } => {
            lemma_for_of_weight(then_body);
            lemma_for_of_weight(else_body);
        },
        Stmt::For { body, .. } => lemma_for_of_weight(body),
        Stmt::ForOf { body, .. } => lemma_for_of_weight(body),
        Stmt::ForIn { body, .. } => lemma_for_of_weight(body),
        Stmt::Block(body) => lemma_for_of_weight(body),
        Stmt::TryCatch { try_body, catch_body, finally_body, .. } => {
            lemma_for_of_weight(try_body);
            lemma_for_of_weight(catch_body);
            lemma_for_of_weight(finally_body);
        },
        _ => {},
    }
}

fn has_register(v: &Vec<u32>, r: u32) -> (res: bool)
    ensures
        res == v@.contains(r),
{
    let mut i: usize = 0;
    while i < v.len()
        invariant
            i <= v.len(),
            forall|k: int| 0 <= k < i ==> v@[k] != r,
        decreases v.len() - i,
    {
        if v[i] == r {
            return true;
        }
        i += 1;
    }
    false
}

fn is_next_call(e: &Expression, aliases: &Vec<u32>) -> (r: bool)
    ensures
        r == next_call(e@, aliases@),
{
    proof {
        reveal_with_fuel(Expression::view, 4);
        reveal_with_fuel(PropertyKey::view, 2);
    }
    match e {
        Expression::Call { callee, arguments } => {
            assert(model::exprs(arguments@).len() == arguments@.len());
            match &**callee {
                Expression::Member { object, property: PropertyKey::Ident(p), .. } => {
                    match &**object {
                        Expression::Value(Value::Register(r)) => arguments.len() == 0 && text::same(
                            p,
                            "next",
                        ) && has_register(aliases, *r),
                        _ => false,
                    }
                },
                _ => false,
            }
        },
        _ => false,
    }
}

fn touches_iter(e: &Expression, aliases: &Vec<u32>) -> (r: bool)
    ensures
        r == touches(e@, aliases@),
{
    match e {
        Expression::Value(Value::Register(r)) => has_register(aliases, *r),
        _ => false,
    }
}

fn is_iter_done_check(e: &Expression, aliases: &Vec<u32>) -> (r: bool)
    ensures
        r == done_check(e@, aliases@),
{
    proof {
        reveal_with_fuel(Expression::view, 3);
    }
    match e {
        Expression::Binary { op: BinaryOp::StrictNeq, left, right } => touches_iter(left, aliases)
            || touches_iter(right, aliases),
        Expression::Unary { op: UnaryOp::Not, operand } => match &**operand {
            Expression::Binary { op: BinaryOp::StrictEq, left, right } => touches_iter(
                left,
                aliases,
            ) || touches_iter(right, aliases),
            _ => false,
        },
        _ => false,
    }
}

struct Pipes {
    aliases: Vec<u32>,
    value: Option<u32>,
    kept: Vec<Statement>,
}

impl Pipes {
    closed spec fn view(&self) -> Plumbing {
        Plumbing { aliases: self.aliases@, value: self.value, kept: model::stmts(self.kept@) }
    }

    fn take(&mut self, s: &Statement) -> (r: bool)
        ensures
            r == (plumb(old(self)@, s@) is Some),
            r ==> Some(final(self)@) == plumb(old(self)@, s@),
            !r ==> final(self)@ == old(self)@,
    {
        let ghost before = self@;
        proof {
            reveal_with_fuel(Expression::view, 2);
        }
        match s {
            Statement::Assign { target: AssignTarget::Register(r), value } => {
                if is_next_call(value, &self.aliases) {
                    self.value = Some(*r);
                    return true;
                }
                match value {
                    Expression::Value(Value::Register(src)) => {
                        if has_register(&self.aliases, *src) {
                            self.aliases.push(*r);
                        } else {
                            self.kept.push(s.clone());
                            assert(self@.kept =~= before.kept.push(s@));
                        }
                        true
                    },
                    Expression::Value(Value::Constant(Constant::Undefined)) => {
                        self.kept.push(s.clone());
                        assert(self@.kept =~= before.kept.push(s@));
                        true
                    },
                    _ => false,
                }
            },
            Statement::Comment(_) => true,
            _ => false,
        }
    }
}

struct FoundLoop {
    kept: Vec<Statement>,
    iterable: Expression,
    value: u32,
    body: Vec<Statement>,
    end: usize,
}

impl FoundLoop {
    closed spec fn view(&self) -> Found {
        Found {
            kept: model::stmts(self.kept@),
            iterable: self.iterable@,
            value: self.value,
            body: model::stmts(self.body@),
            end: self.end as int,
        }
    }
}

fn try_match_for_of(v: &Vec<Statement>, i: usize) -> (r: Option<FoundLoop>)
    requires
        i < v.len(),
    ensures
        match r {
            Some(f) => loop_at(model::stmts(v@), i as int) == Some(f@),
            None => loop_at(model::stmts(v@), i as int) is None,
        },
{
    let ghost s = model::stmts(v@);
    assert(s[i as int] == v@[i as int]@);
    if let Statement::Assign { target: AssignTarget::Register(r), value } = &v[i] {
        if let Some(source) = is_iterator_call(value) {
            let mut aliases: Vec<u32> = Vec::new();
            aliases.push(*r);
            let mut p = Pipes { aliases, value: None, kept: Vec::new() };
            let ghost first = Plumbing { aliases: seq![*r], value: None, kept: Seq::empty() };
            assert(p@.aliases =~= first.aliases);
            assert(p@.kept =~= first.kept);
            let mut k: usize = i + 1;
            while k < v.len()
                invariant
                    i < k <= v.len(),
                    s == model::stmts(v@),
                    plumbed(s, i + 1, first) == plumbed(s, k as int, p@),
                ensures
                    i < k <= v.len(),
                    plumbed(s, i + 1, first) == (p@, k as int),
                decreases v.len() - k,
            {
                assert(s[k as int] == v@[k as int]@);
                if !p.take(&v[k]) {
                    break;
                }
                k += 1;
            }
            if k < v.len() {
                assert(s[k as int] == v@[k as int]@);
                if let Some(reg) = p.value {
                    if let Statement::While { condition, body } = &v[k] {
                        if is_iter_done_check(condition, &p.aliases) {
                            return Some(
                                FoundLoop {
                                    kept: p.kept,
                                    iterable: source,
                                    value: reg,
                                    body: unwrap_iterator_body(body),
                                    end: k + 1,
                                },
                            );
                        }
                    }
                }
            }
        }
    }
    None
}

/// Recovers the loops of a list, nested bodies first.
fn recover(v: &Vec<Statement>) -> (r: Vec<Statement>)
    ensures
        model::stmts(r@) == for_of(model::stmts(v@)),
    decreases weight::weight(model::stmts(v@)), 3nat, 0nat,
{
    let t = recurse(v);
    proof {
        lemma_for_of_weight(model::stmts(v@));
    }
    recover_list(&t)
}

fn recurse(v: &Vec<Statement>) -> (r: Vec<Statement>)
    ensures
        model::stmts(r@) == for_of_inside(model::stmts(v@)),
    decreases weight::weight(model::stmts(v@)), 1nat, 0nat,
{
    let ghost s = model::stmts(v@);
    let mut out: Vec<Statement> = Vec::new();
    let mut i: usize = 0;
    assert(model::stmts(out@) =~= Seq::empty());
    while i < v.len()
        invariant
            i <= v.len(),
            s == model::stmts(v@),
            model::stmts(out@) == for_of_inside(s.take(i as int)),
        decreases v.len() - i,
    {
        assert(s.take(i + 1).drop_last() =~= s.take(i as int));
        assert(s[i as int] == v@[i as int]@);
        proof {
            weight::lemma_weight_element(s, i as int);
        }
        let ghost before = out@;
        let x = recover_stmt(&v[i]);
        let ghost y = x@;
        out.push(x);
        assert(model::stmts(out@) =~= model::stmts(before).push(y));
        i += 1;
    }
    assert(s.take(s.len() as int) =~= s);
    out
}

fn recover_list(v: &Vec<Statement>) -> (r: Vec<Statement>)
    ensures
        model::stmts(r@) == for_of_from(model::stmts(v@), 0),
    decreases weight::weight(model::stmts(v@)), 2nat, 0nat,
{
    let ghost s = model::stmts(v@);
    let mut out: Vec<Statement> = Vec::new();
    let mut i: usize = 0;
    assert(model::stmts(out@) + for_of_from(s, 0) =~= for_of_from(s, 0));
    while i < v.len()
        invariant
            i <= v.len(),
            s == model::stmts(v@),
            for_of_from(s, 0) == model::stmts(out@) + for_of_from(s, i as int),
        decreases v.len() - i,
    {
        let ghost before = model::stmts(out@);
        proof {
            lemma_loop_at(s, i as int);
        }
        match try_match_for_of(v, i) {
            Some(f) => {
                let ghost found = f@;
                let ghost end = f.end as int;
                let variable = name_of_item(f.value);
                let mut names: BTreeMap<u32, String> = BTreeMap::new();
                names.insert(f.value, variable.clone());
                proof {
                    broadcast use vstd::std_specs::btree::group_btree_axioms;

                    assert(naming::names(names@) =~= Map::empty().insert(
                        found.value,
                        super::item_name(found.value),
                    ));
                }
                let body = rename_registers(f.body, &names);
                assert(model::stmts(body@) == named_body(found));
                let inner = recover(&body);
                let mut kept = f.kept;
                let ghost k = model::stmts(kept@);
                out.append(&mut kept);
                assert(model::stmts(out@) =~= before + k);
                let made = Statement::ForOf { variable, iterable: f.iterable, body: inner };
                let ghost m = made@;
                out.push(made);
                assert(model::stmts(out@) =~= before + (k + seq![m]));
                assert(before + ((k + seq![m]) + for_of_from(s, end)) =~= (before + (k + seq![m]))
                    + for_of_from(s, end));
                i = f.end;
            },
            None => {
                assert(s[i as int] == v@[i as int]@);
                out.push(v[i].clone());
                assert(model::stmts(out@) =~= before + seq![s[i as int]]);
                assert(before + (seq![s[i as int]] + for_of_from(s, i + 1)) =~= (before + seq![
                    s[i as int],
                ]) + for_of_from(s, i + 1));
                i += 1;
            },
        }
    }
    assert(model::stmts(out@) + for_of_from(s, s.len() as int) =~= model::stmts(out@));
    out
}

fn recover_stmt(s: &Statement) -> (r: Statement)
    ensures
        r@ == for_of_stmt(s@),
    decreases weight::weight_stmt(s@), 0nat, 0nat,
{
    match s {
        Statement::While { condition, body } => Statement::While {
            condition: condition.clone(),
            body: recover(body),
        },
        Statement::DoWhile { body, condition } => Statement::DoWhile {
            body: recover(body),
            condition: condition.clone(),
        },
        Statement::If { condition, then_body, else_body } => Statement::If {
            condition: condition.clone(),
            then_body: recover(then_body),
            else_body: recover(else_body),
        },
        Statement::For { init, condition, update, body } => Statement::For {
            init: clone_opt_stmt(init),
            condition: clone_opt_expr(condition),
            update: clone_opt_stmt(update),
            body: recover(body),
        },
        Statement::ForOf { variable, iterable, body } => Statement::ForOf {
            variable: variable.clone(),
            iterable: iterable.clone(),
            body: recover(body),
        },
        Statement::ForIn { variable, object, body } => Statement::ForIn {
            variable: variable.clone(),
            object: object.clone(),
            body: recover(body),
        },
        Statement::Block(body) => Statement::Block(recover(body)),
        Statement::TryCatch { try_body, catch_param, catch_body, finally_body } => {
            Statement::TryCatch {
                try_body: recover(try_body),
                catch_param: clone_opt_text(catch_param),
                catch_body: recover(catch_body),
                finally_body: recover(finally_body),
            }
        },
        _ => s.clone(),
    }
}

/// Rebuilds the `for (x of src)` loops of a function. The arms of a `switch` are left alone.
pub fn detect_for_of_loops(stmts: Vec<Statement>) -> (r: Vec<Statement>)
    ensures
        model::stmts(r@) == for_of(model::stmts(stmts@)),
{
    recover(&stmts)
}

} // verus!
