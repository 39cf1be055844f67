//! The iterator protocol of old bytecode.
//!
//! `for (x of src)` is lowered to the full `{value, done}` protocol:
//!
//! ```text
//! iter   = src[Symbol.iterator].call(src)
//! HermesInternal.ensureObject(iter, "...")
//! next   = iter.next
//! result = next.call(iter)
//! HermesInternal.ensureObject(result, "...")
//! done   = result.done
//! while (!done) {
//!     x = result.value
//!     try { <body> } catch (e) { iter.return?.(); throw e }
//! }
//! ```

use super::{is_iterator_call, name_of_item, unwrap_iterator_body};
use crate::dict::keys_in_order;
use crate::ir::cloning::{clone_opt_expr, clone_opt_stmt, clone_opt_text};
use crate::ir::model;
use crate::ir::model::{Expr, Key, Stmt, Target, Val};
use crate::ir::naming;
use crate::ir::naming::rename_registers;
use crate::ir::weight;
use crate::ir::{AssignTarget, Expression, PropertyKey, Statement, UnaryOp, Value};
use crate::text;
use std::collections::BTreeMap;
use vstd::prelude::*;

verus! {

/// The model of the values that registers are assigned.
pub open spec fn values(m: Map<u32, Expression>) -> Map<u32, Expr> {
    m.map_values(|e: Expression| e@)
}

/// The value that each register is assigned last in a list.
pub open spec fn defs_at(s: Seq<Stmt>) -> Map<u32, Expr>
    decreases s.len(),
{
    if s.len() == 0 {
        Map::empty()
    } else {
        let before = defs_at(s.drop_last());
        match s.last() {
            Stmt::Assign { target: Target::Register(r), value } => before.insert(r, value),
            _ => before,
        }
    }
}

/// The register that an expression is.
pub open spec fn register(e: Expr) -> Option<u32> {
    match e {
        Expr::Value(Val::Register(r)) => Some(r),
        _ => None,
    }
}

/// The register `r` of `r.name`.
pub open spec fn member_of(e: Expr, name: Seq<char>) -> Option<u32> {
    match e {
        Expr::Member { object, property: Key::Ident(p), .. } => if p == name {
            register(*object)
        } else {
            None
        },
        _ => None,
    }
}

/// The register `r` whose `name` was assigned to the register `x`.
pub open spec fn member_in(defs: Map<u32, Expr>, x: u32, name: Seq<char>) -> Option<u32> {
    if defs.dom().contains(x) {
        member_of(defs[x], name)
    } else {
        None
    }
}

/// The iterator whose `next` gave `result`, and the register that holds `next`.
pub open spec fn iterator_of(defs: Map<u32, Expr>, result: u32) -> Option<(u32, Set<u32>)> {
    if defs.dom().contains(result) {
        match defs[result] {
            Expr::Call { callee, .. } => match register(*callee) {
                Some(next) => match member_in(defs, next, "next"@) {
                    Some(iter) => Some((iter, set![next])),
                    None => None,
                },
                None => match member_of(*callee, "next"@) {
                    Some(iter) => Some((iter, Set::empty())),
                    None => None,
                },
            },
            _ => None,
        }
    } else {
        None
    }
}

/// Whether an expression is a member named `iterator`.
pub open spec fn iterator_member(e: Expr) -> bool {
    match e {
        Expr::Member { property: Key::Ident(p), .. } => p == "iterator"@,
        _ => false,
    }
}

/// Whether a key is the iterator symbol, directly or through a register.
pub open spec fn iterator_key(defs: Map<u32, Expr>, c: Expr) -> bool {
    match register(c) {
        Some(r) => defs.dom().contains(r) && iterator_member(defs[r]),
        None => iterator_member(c),
    }
}

/// The registers that a key goes through.
pub open spec fn key_registers(c: Expr) -> Set<u32> {
    match register(c) {
        Some(r) => set![r],
        None => Set::empty(),
    }
}

/// What the iterator in `iter` iterates over, and the registers that getting it goes through.
pub open spec fn source_of(defs: Map<u32, Expr>, iter: u32) -> Option<(Expr, Set<u32>)> {
    if !defs.dom().contains(iter) {
        None
    } else {
        match called_access(defs[iter]) {
            Some(access) => if defs.dom().contains(access) {
                match defs[access] {
                    Expr::Member { object, property: Key::Computed(c), .. } => {
                        if iterator_key(defs, *c) {
                            Some((*object, key_registers(*c).insert(access)))
                        } else {
                            None
                        }
                    },
                    _ => None,
                }
            } else {
                None
            },
            None => match super::iterated(defs[iter]) {
                Some(e) => Some((e, Set::empty())),
                None => None,
            },
        }
    }
}

/// The register called in `access.call(src)`.
pub open spec fn called_access(e: Expr) -> Option<u32> {
    match e {
        Expr::Call { callee, arguments } => if arguments.len() == 1 {
            register(*callee)
        } else {
            None
        },
        _ => None,
    }
}

/// A loop found: what it iterates over, the register of its value, its body, and the registers
/// of the protocol.
#[verifier::ext_equal]
pub struct Protocol {
    pub iterable: Expr,
    pub value: u32,
    pub body: Seq<Stmt>,
    pub registers: Set<u32>,
}

/// The register `done` of a condition `!done`.
pub open spec fn negated(e: Expr) -> Option<u32> {
    match e {
        Expr::Unary { op: UnaryOp::Not, operand } => register(*operand),
        _ => None,
    }
}

/// The register that takes `result.value` at the start of a body.
pub open spec fn value_register(body: Seq<Stmt>, result: u32) -> Option<u32> {
    if body.len() == 0 {
        None
    } else {
        match body[0] {
            Stmt::Assign { target: Target::Register(v), value } => if member_of(value, "value"@)
                == Some(result) {
                Some(v)
            } else {
                None
            },
            _ => None,
        }
    }
}

/// The loop that a `while` with a condition and a body is, by the definitions beside it.
pub open spec fn protocol(
    condition: Expr,
    body: Seq<Stmt>,
    defs: Map<u32, Expr>,
) -> Option<Protocol> {
    match negated(condition) {
        Some(done) => match member_in(defs, done, "done"@) {
            Some(result) => match (value_register(body, result), iterator_of(defs, result)) {
                (Some(value), Some(it)) => match source_of(defs, it.0) {
                    Some(src) => Some(
                        Protocol {
                            iterable: src.0,
                            value,
                            body: super::unwrapped(body.subrange(1, body.len() as int)),
                            registers: aliased(
                                defs,
                                set![done, result].union(it.1).insert(it.0).union(src.1),
                            ),
                        },
                    ),
                    None => None,
                },
                _ => None,
            },
            None => None,
        },
        None => None,
    }
}

/// Whether a register is one of `seeds`, or a copy of one through at most `n` copies.
pub open spec fn alias_in(defs: Map<u32, Expr>, seeds: Set<u32>, n: nat, r: u32) -> bool
    decreases n,
{
    seeds.contains(r) || (n > 0 && defs.dom().contains(r) && (register(defs[r]) matches Some(p)
        && alias_in(defs, seeds, (n - 1) as nat, p)))
}

/// The registers of `seeds` and all copies of them.
pub open spec fn aliased(defs: Map<u32, Expr>, seeds: Set<u32>) -> Set<u32> {
    Set::new(|r: u32| exists|n: nat| alias_in(defs, seeds, n, r))
}

/// Whether a statement is a call of `ensureObject`.
pub open spec fn ensure_object(s: Stmt) -> bool {
    match s {
        Stmt::Expr(e) => ensure_call(e),
        Stmt::Assign { value, .. } => ensure_call(value),
        _ => false,
    }
}

pub open spec fn ensure_call(e: Expr) -> bool {
    match e {
        Expr::Call { callee, .. } => match *callee {
            Expr::Member { property: Key::Ident(p), .. } => p == "ensureObject"@,
            _ => false,
        },
        _ => false,
    }
}

/// The protocol of the statement at a position.
pub open spec fn protocol_at(s: Seq<Stmt>, i: int) -> Option<Protocol> {
    match s[i] {
        Stmt::While { condition, body } => protocol(condition, body, defs_at(s)),
        _ => None,
    }
}

/// The first loop from position `i` on.
pub open spec fn first_loop(s: Seq<Stmt>, i: int) -> Option<int>
    decreases s.len() - i,
{
    if 0 <= i < s.len() {
        if protocol_at(s, i) is Some {
            Some(i)
        } else {
            first_loop(s, i + 1)
        }
    } else {
        None
    }
}

/// Whether a statement belongs to the protocol of a loop.
pub open spec fn belongs(s: Stmt, registers: Set<u32>) -> bool {
    ensure_object(s) || match s {
        Stmt::Assign { target: Target::Register(r), .. } => registers.contains(r),
        _ => false,
    }
}

/// The statements with the one at `k` replaced by `made`, and without those of the protocol.
pub open spec fn rebuilt(s: Seq<Stmt>, k: int, made: Stmt, registers: Set<u32>) -> Seq<Stmt>
    decreases s.len(),
{
    if s.len() == 0 {
        Seq::empty()
    } else {
        let before = rebuilt(s.drop_last(), k, made, registers);
        if s.len() - 1 == k {
            before.push(made)
        } else if belongs(s.last(), registers) {
            before
        } else {
            before.push(s.last())
        }
    }
}

/// The names given to the value register of a loop.
pub open spec fn item_names(r: u32) -> Map<u32, Seq<char>> {
    Map::empty().insert(r, super::item_name(r))
}

/// The first loop of a list recovered, nested bodies first.
pub open spec fn legacy(s: Seq<Stmt>) -> Seq<Stmt>
    decreases weight::weight(s), 2nat,
{
    let t = legacy_inside(s);
    match first_loop(t, 0) {
        Some(k) => match protocol_at(t, k) {
            Some(p) => if weight::weight(p.body) < weight::weight(s) {
                rebuilt(
                    t,
                    k,
                    Stmt::ForOf {
                        variable: super::item_name(p.value),
                        iterable: p.iterable,
                        body: naming::nam_stmts(item_names(p.value), legacy(p.body)),
                    },
                    p.registers,
                )
            } else {
                t
            },
            None => t,
        },
        None => t,
    }
}

/// The list with the loops of nested bodies recovered.
pub open spec fn legacy_inside(s: Seq<Stmt>) -> Seq<Stmt>
    decreases weight::weight(s), 1nat,
{
    if s.len() == 0 {
        Seq::empty()
    } else {
        proof {
            weight::lemma_weight_positive(s.last());
        }
        legacy_inside(s.drop_last()).push(legacy_stmt(s.last()))
    }
}

pub open spec fn legacy_stmt(s: Stmt) -> Stmt
    decreases weight::weight_stmt(s), 0nat,
{
    match s {
        Stmt::While { condition, body } => Stmt::While { condition, body: legacy(body) },
        Stmt::DoWhile { body, condition } => Stmt::DoWhile { body: legacy(body), condition },
        Stmt::If { condition, then_body, else_body } => Stmt::If {
            condition,
            then_body: legacy(then_body),
            else_body: legacy(else_body),
        },
        Stmt::For { init, condition, update, body } => Stmt::For {
            init,
            condition,
            update,
            body: legacy(body),
        },
        Stmt::ForOf { variable, iterable, body } => Stmt::ForOf {
            variable,
            iterable,
            body: legacy(body),
        },
        Stmt::ForIn { variable, object, body } => Stmt::ForIn {
            variable,
            object,
            body: legacy(body),
        },
        Stmt::Block(body) => Stmt::Block(legacy(body)),
        Stmt::TryCatch { try_body, catch_param, catch_body, finally_body } => Stmt::TryCatch {
            try_body: legacy(try_body),
            catch_param,
            catch_body: legacy(catch_body),
            finally_body: legacy(finally_body),
        },
        _ => s,
    }
}

proof fn lemma_first_loop(s: Seq<Stmt>, i: int)
    ensures
        first_loop(s, i) matches Some(k) ==> i <= k < s.len() && 0 <= k && protocol_at(s, k) is Some,
    decreases s.len() - i,
{
    if 0 <= i < s.len() && protocol_at(s, i) is None {
        lemma_first_loop(s, i + 1);
    }
}

/// The body of a loop weighs less than the list that the loop is in.
pub proof fn lemma_protocol_weight(s: Seq<Stmt>, k: int)
    requires
        0 <= k < s.len(),
    ensures
        protocol_at(s, k) matches Some(p) ==> weight::weight(p.body) < weight::weight_stmt(s[k])
            && weight::weight(p.body) < weight::weight(s),
{
    if let Some(p) = protocol_at(s, k) {
        let body = match s[k] {
            Stmt::While { body, .. } => body,
            _ => Seq::empty(),
        };
        let rest = body.subrange(1, body.len() as int);
        super::lemma_unwrapped(rest);
        weight::lemma_weight_part(body, 1, body.len() as int);
        weight::lemma_weight_element(s, k);
    }
}

proof fn lemma_rebuilt_weight(s: Seq<Stmt>, k: int, made: Stmt, registers: Set<u32>)
    requires
        0 <= k < s.len() ==> weight::weight_stmt(made) <= weight::weight_stmt(s[k]),
    ensures
        weight::weight(rebuilt(s, k, made, registers)) <= weight::weight(s),
    decreases s.len(),
{
    if s.len() > 0 {
        lemma_rebuilt_weight(s.drop_last(), k, made, registers);
        let before = rebuilt(s.drop_last(), k, made, registers);
        weight::lemma_weight_push(before, made);
        weight::lemma_weight_push(before, s.last());
    }
}

/// Recovering loops adds no statements.
pub proof fn lemma_legacy_weight(s: Seq<Stmt>)
    ensures
        weight::weight(legacy_inside(s)) <= weight::weight(s),
        weight::weight(legacy(s)) <= weight::weight(s),
    decreases weight::weight(s), 2nat,
{
    lemma_inside_weight(s);
    let t = legacy_inside(s);
    lemma_first_loop(t, 0);
    if let Some(k) = first_loop(t, 0) {
        lemma_protocol_weight(t, k);
        if let Some(p) = protocol_at(t, k) {
            lemma_legacy_weight(p.body);
            let inner = legacy(p.body);
            weight::lemma_naming_keeps_weight(item_names(p.value), inner);
            let made = Stmt::ForOf {
                variable: super::item_name(p.value),
                iterable: p.iterable,
                body: naming::nam_stmts(item_names(p.value), inner),
            };
            lemma_rebuilt_weight(t, k, made, p.registers);
        }
    }
}

proof fn lemma_inside_weight(s: Seq<Stmt>)
    ensures
        weight::weight(legacy_inside(s)) <= weight::weight(s),
    decreases weight::weight(s), 1nat,
{
    if s.len() > 0 {
        weight::lemma_weight_positive(s.last());
        lemma_inside_weight(s.drop_last());
        lemma_stmt_weight(s.last());
        weight::lemma_weight_push(legacy_inside(s.drop_last()), legacy_stmt(s.last()));
    }
}

proof fn lemma_stmt_weight(s: Stmt)
    ensures
        weight::weight_stmt(legacy_stmt(s)) <= weight::weight_stmt(s),
    decreases weight::weight_stmt(s), 0nat,
{
    match s {
        Stmt::While { body, .. } => lemma_legacy_weight(body),
        Stmt::DoWhile { body, .. } => lemma_legacy_weight(body),
        Stmt::If { then_body, else_body, .. } => {
            lemma_legacy_weight(then_body);
            lemma_legacy_weight(else_body);
        },
        Stmt::For { body, .. } => lemma_legacy_weight(body),
        Stmt::ForOf { body, .. } => lemma_legacy_weight(body),
        Stmt::ForIn { body, .. } => lemma_legacy_weight(body),
        Stmt::Block(body) => lemma_legacy_weight(body),
        Stmt::TryCatch { try_body, catch_body, finally_body, .. } => {
            lemma_legacy_weight(try_body);
            lemma_legacy_weight(catch_body);
            lemma_legacy_weight(finally_body);
        },
        _ => {},
    }
}

fn collect_defs(v: &Vec<Statement>) -> (r: BTreeMap<u32, Expression>)
    ensures
        values(r@) == defs_at(model::stmts(v@)),
{
    broadcast use vstd::std_specs::btree::group_btree_axioms;

    let ghost s = model::stmts(v@);
    let mut out: BTreeMap<u32, Expression> = BTreeMap::new();
    let mut i: usize = 0;
    assert(values(out@) =~= Map::empty());
    while i < v.len()
        invariant
            i <= v.len(),
            s == model::stmts(v@),
            values(out@) == defs_at(s.take(i as int)),
        decreases v.len() - i,
    {
        broadcast use vstd::std_specs::btree::group_btree_axioms;

        assert(s.take(i + 1).drop_last() =~= s.take(i as int));
        assert(s[i as int] == v@[i as int]@);
        if let Statement::Assign { target: AssignTarget::Register(r), value } = &v[i] {
            let ghost before = out@;
            out.insert(*r, value.clone());
            assert(values(out@) =~= values(before).insert(*r, value@));
        }
        i += 1;
    }
    assert(s.take(s.len() as int) =~= s);
    out
}

fn reg_of(e: &Expression) -> (r: Option<u32>)
    ensures
        r == register(e@),
{
    match e {
        Expression::Value(Value::Register(r)) => Some(*r),
        _ => None,
    }
}

fn find_member(e: &Expression, name: &str) -> (r: Option<u32>)
    ensures
        r == member_of(e@, name@),
{
    proof {
        reveal_with_fuel(Expression::view, 2);
        reveal_with_fuel(PropertyKey::view, 2);
    }
    match e {
        Expression::Member { object, property: PropertyKey::Ident(p), .. } => if text::same(
            p,
            name,
        ) {
            reg_of(object)
        } else {
            None
        },
        _ => None,
    }
}

fn look_up<'a>(defs: &'a BTreeMap<u32, Expression>, x: u32) -> (r: Option<&'a Expression>)
    ensures
        match r {
            Some(e) => values(defs@).dom().contains(x) && values(defs@)[x] == e@,
            None => !values(defs@).dom().contains(x),
        },
{
    broadcast use vstd::std_specs::btree::group_btree_axioms;

    defs.get(&x)
}

fn find_member_in(defs: &BTreeMap<u32, Expression>, x: u32, name: &str) -> (r: Option<u32>)
    ensures
        r == member_in(values(defs@), x, name@),
{
    match look_up(defs, x) {
        Some(e) => find_member(e, name),
        None => None,
    }
}

fn find_iterator(
    defs: &BTreeMap<u32, Expression>,
    result: u32,
    regs: &mut Vec<u32>,
) -> (r: Option<u32>)
    ensures
        match r {
            Some(iter) => iterator_of(values(defs@), result) matches Some(p) && p.0 == iter
                && final(regs)@.to_set() == old(regs)@.to_set().union(p.1),
            None => iterator_of(values(defs@), result) is None,
        },
{
    match look_up(defs, result) {
        Some(Expression::Call { callee, .. }) => match reg_of(callee) {
            Some(next) => match find_member_in(defs, next, "next") {
                Some(iter) => {
                    add_register(regs, next);
                    assert(regs@.to_set() =~= old(regs)@.to_set().union(set![next]));
                    Some(iter)
                },
                None => None,
            },
            None => match find_member(callee, "next") {
                Some(iter) => {
                    assert(regs@.to_set() =~= old(regs)@.to_set().union(Set::empty()));
                    Some(iter)
                },
                None => None,
            },
        },
        _ => None,
    }
}

fn add_register(v: &mut Vec<u32>, r: u32)
    ensures
        final(v)@ == old(v)@.push(r),
        final(v)@.to_set() == old(v)@.to_set().insert(r),
{
    let ghost before = v@;
    v.push(r);
    assert forall|x: u32| #[trigger]
        v@.to_set().contains(x) == before.to_set().insert(r).contains(x) by {
        if before.contains(x) {
            let n = choose|n: int| 0 <= n < before.len() && before[n] == x;
            assert(v@[n] == x);
        }
        if x == r {
            assert(v@[before.len() as int] == x);
        }
    }
    assert(v@.to_set() =~= before.to_set().insert(r));
}

fn is_iterator_member(e: &Expression) -> (r: bool)
    ensures
        r == iterator_member(e@),
{
    proof {
        reveal_with_fuel(Expression::view, 2);
        reveal_with_fuel(PropertyKey::view, 2);
    }
    match e {
        Expression::Member { property: PropertyKey::Ident(p), .. } => text::same(p, "iterator"),
        _ => false,
    }
}

fn is_symbol_iterator(
    c: &Expression,
    defs: &BTreeMap<u32, Expression>,
    regs: &mut Vec<u32>,
) -> (r: bool)
    ensures
        r == iterator_key(values(defs@), c@),
        final(regs)@.to_set() == old(regs)@.to_set().union(key_registers(c@)),
{
    match reg_of(c) {
        Some(x) => {
            add_register(regs, x);
            assert(regs@.to_set() =~= old(regs)@.to_set().union(set![x]));
            match look_up(defs, x) {
                Some(e) => is_iterator_member(e),
                None => false,
            }
        },
        None => {
            assert(regs@.to_set() =~= old(regs)@.to_set().union(Set::empty()));
            is_iterator_member(c)
        },
    }
}

fn find_called_access(e: &Expression) -> (r: Option<u32>)
    ensures
        r == called_access(e@),
{
    match e {
        Expression::Call { callee, arguments } => {
            assert(model::exprs(arguments@).len() == arguments@.len());
            if arguments.len() == 1 {
                reg_of(callee)
            } else {
                None
            }
        },
        _ => None,
    }
}

fn find_source(
    defs: &BTreeMap<u32, Expression>,
    iter: u32,
    regs: &mut Vec<u32>,
) -> (r: Option<Expression>)
    ensures
        match r {
            Some(e) => source_of(values(defs@), iter) matches Some(p) && p.0 == e@
                && final(regs)@.to_set() == old(regs)@.to_set().union(p.1),
            None => source_of(values(defs@), iter) is None,
        },
{
    proof {
        reveal_with_fuel(Expression::view, 2);
        reveal_with_fuel(PropertyKey::view, 2);
    }
    match look_up(defs, iter) {
        Some(e) => match find_called_access(e) {
            Some(access) => match look_up(defs, access) {
                Some(Expression::Member { object, property: PropertyKey::Computed(c), .. }) => {
                    add_register(regs, access);
                    if is_symbol_iterator(c, defs, regs) {
                        assert(regs@.to_set() =~= old(regs)@.to_set().union(
                            key_registers(c@).insert(access),
                        ));
                        Some((**object).clone())
                    } else {
                        None
                    }
                },
                _ => None,
            },
            None => match is_iterator_call(e) {
                Some(src) => {
                    assert(regs@.to_set() =~= old(regs)@.to_set().union(Set::empty()));
                    Some(src)
                },
                None => None,
            },
        },
        None => None,
    }
}

fn has_register(v: &Vec<u32>, r: u32) -> (res: bool)
    ensures
        res == v@.to_set().contains(r),
{
    let mut i: usize = 0;
    while i < v.len()
        invariant
            i <= v.len(),
            forall|k: int| 0 <= k < i ==> v@[k] != r,
        decreases v.len() - i,
    {
        if v[i] == r {
            return true;
        }
        i += 1;
    }
    false
}

/// Whether every copy of a register of `s` among the first `n` keys is in `s`.
spec fn closed_for(defs: Map<u32, Expr>, keys: Seq<u32>, n: int, s: Set<u32>) -> bool {
    forall|i: int|
        0 <= i < n && defs.dom().contains(#[trigger] keys[i]) && (register(defs[keys[i]]) matches Some(
            p,
        ) && s.contains(p)) ==> s.contains(keys[i])
}

proof fn lemma_closed(defs: Map<u32, Expr>, seeds: Set<u32>, s: Set<u32>, n: nat, r: u32)
    requires
        seeds.subset_of(s),
        forall|x: u32|
            defs.dom().contains(x) && (register(#[trigger] defs[x]) matches Some(p) && s.contains(p))
                ==> s.contains(x),
        alias_in(defs, seeds, n, r),
    ensures
        s.contains(r),
    decreases n,
{
    if !seeds.contains(r) {
        let p = register(defs[r])->0;
        lemma_closed(defs, seeds, s, (n - 1) as nat, p);
    }
}

proof fn lemma_members_bounded(added: Seq<u32>, keys: Seq<u32>)
    requires
        added.no_duplicates(),
        forall|x: u32| #[trigger] added.contains(x) ==> keys.contains(x),
    ensures
        added.len() <= keys.len(),
{
    added.unique_seq_to_set();
    assert(added.to_set().subset_of(keys.to_set()));
    vstd::set_lib::lemma_len_subset(added.to_set(), keys.to_set());
    keys.lemma_cardinality_of_set();
}

/// Adds the copies of the registers in the list.
fn add_aliases(defs: &BTreeMap<u32, Expression>, regs: &mut Vec<u32>)
    ensures
        final(regs)@.to_set() == aliased(values(defs@), old(regs)@.to_set()),
{
    let ghost d = values(defs@);
    let ghost seeds = regs@.to_set();
    let keys = keys_in_order(defs);
    let ghost mut added: Seq<u32> = Seq::empty();
    let mut changed: bool = true;
    assert forall|x: u32| seeds.contains(x) implies aliased(d, seeds).contains(x) by {
        assert(alias_in(d, seeds, 0, x));
    }
    while changed
        invariant
            d == values(defs@),
            forall|k: u32| #[trigger] keys@.contains(k) <==> defs@.dom().contains(k),
            seeds.subset_of(regs@.to_set()),
            regs@.to_set().subset_of(aliased(d, seeds)),
            added.no_duplicates(),
            forall|x: u32| #[trigger] added.contains(x) ==> keys@.contains(x) && regs@.contains(x),
            added.len() <= keys@.len(),
            !changed ==> closed_for(d, keys@, keys@.len() as int, regs@.to_set()),
        decreases
                keys@.len() - added.len(),
                (if changed {
                    1int
                } else {
                    0int
                }),
    {
        changed = false;
        let ghost before = added;
        let mut i: usize = 0;
        while i < keys.len()
            invariant
                i <= keys.len(),
                d == values(defs@),
                forall|k: u32| #[trigger] keys@.contains(k) <==> defs@.dom().contains(k),
                seeds.subset_of(regs@.to_set()),
                regs@.to_set().subset_of(aliased(d, seeds)),
                added.no_duplicates(),
                forall|x: u32| #[trigger]
                    added.contains(x) ==> keys@.contains(x) && regs@.contains(x),
                added.len() <= keys@.len(),
                changed ==> added.len() > before.len(),
                !changed ==> added == before && closed_for(d, keys@, i as int, regs@.to_set()),
            decreases keys.len() - i,
        {
            let x: u32 = keys[i];
            assert(keys@.contains(x));
            if !has_register(regs, x) {
                let src: Option<u32> = match look_up(defs, x) {
                    Some(e) => reg_of(e),
                    None => None,
                };
                if let Some(p) = src {
                    if has_register(regs, p) {
                        let ghost old_regs = regs@;
                        proof {
                            let n = choose|n: nat| alias_in(d, seeds, n, p);
                            assert(alias_in(d, seeds, n + 1, x));
                            assert(aliased(d, seeds).contains(x));
                            assert(!added.contains(x));
                            let next = added.push(x);
                            assert forall|y: u32| #[trigger] next.contains(y) implies keys@.contains(
                                y,
                            ) && (regs@.contains(y) || y == x) by {
                                let k = choose|k: int| 0 <= k < next.len() && next[k] == y;
                                if k < added.len() {
                                    assert(added.contains(y));
                                }
                            }
                            lemma_members_bounded(next, keys@);
                            added = next;
                        }
                        add_register(regs, x);
                        assert forall|y: u32| #[trigger] added.contains(y) implies keys@.contains(y)
                            && regs@.contains(y) by {
                            assert(regs@.to_set().contains(y));
                        }
                        changed = true;
                    }
                }
            }
            i += 1;
        }
    }
    proof {
        let s = regs@.to_set();
        assert forall|x: u32|
            d.dom().contains(x) && (register(#[trigger] d[x]) matches Some(p) && s.contains(
                p,
            )) implies s.contains(x) by {
            assert(keys@.contains(x));
            let i = choose|i: int| 0 <= i < keys@.len() && keys@[i] == x;
            assert(d.dom().contains(keys@[i]));
        }
        assert forall|r: u32| aliased(d, seeds).contains(r) implies s.contains(r) by {
            let n = choose|n: nat| alias_in(d, seeds, n, r);
            lemma_closed(d, seeds, s, n, r);
        }
        assert(s =~= aliased(d, seeds));
    }
}

struct LegacyForOf {
    iterable: Expression,
    value: u32,
    registers: Vec<u32>,
    body: Vec<Statement>,
}

impl LegacyForOf {
    closed spec fn view(&self) -> Protocol {
        Protocol {
            iterable: self.iterable@,
            value: self.value,
            body: model::stmts(self.body@),
            registers: self.registers@.to_set(),
        }
    }
}

fn find_negated(e: &Expression) -> (r: Option<u32>)
    ensures
        r == negated(e@),
{
    proof {
        reveal_with_fuel(Expression::view, 2);
    }
    match e {
        Expression::Unary { op: UnaryOp::Not, operand } => reg_of(operand),
        _ => None,
    }
}

fn find_value_register(body: &Vec<Statement>, result: u32) -> (r: Option<u32>)
    ensures
        r == value_register(model::stmts(body@), result),
{
    assert(model::stmts(body@).len() == body@.len());
    if body.len() == 0 {
        return None;
    }
    assert(model::stmts(body@)[0] == body@[0]@);
    match &body[0] {
        Statement::Assign { target: AssignTarget::Register(v), value } => match find_member(
            value,
            "value",
        ) {
            Some(x) => if x == result {
                Some(*v)
            } else {
                None
            },
            None => None,
        },
        _ => None,
    }
}

fn without_first(v: &Vec<Statement>) -> (r: Vec<Statement>)
    requires
        v@.len() > 0,
    ensures
        model::stmts(r@) == model::stmts(v@).subrange(1, v@.len() as int),
{
    let ghost all = model::stmts(v@);
    let mut out: Vec<Statement> = Vec::new();
    let mut i: usize = 1;
    while i < v.len()
        invariant
            1 <= i <= v.len(),
            out.len() == i - 1,
            all == model::stmts(v@),
            forall|k: int| 0 <= k < out@.len() ==> (#[trigger] out@[k])@ == all[k + 1],
        decreases v.len() - i,
    {
        out.push(v[i].clone());
        i += 1;
    }
    assert(model::stmts(out@) =~= all.subrange(1, v@.len() as int));
    out
}

fn match_legacy_for_of(
    condition: &Expression,
    body: &Vec<Statement>,
    defs: &BTreeMap<u32, Expression>,
) -> (r: Option<LegacyForOf>)
    ensures
        match r {
            Some(f) => protocol(condition@, model::stmts(body@), values(defs@)) == Some(f@),
            None => protocol(condition@, model::stmts(body@), values(defs@)) is None,
        },
{
    let done: u32 = match find_negated(condition) {
        Some(x) => x,
        None => return None,
    };
    let result: u32 = match find_member_in(defs, done, "done") {
        Some(x) => x,
        None => return None,
    };
    let value: u32 = match find_value_register(body, result) {
        Some(x) => x,
        None => return None,
    };
    let mut registers: Vec<u32> = Vec::new();
    assert(registers@.to_set() =~= Set::empty());
    add_register(&mut registers, done);
    add_register(&mut registers, result);
    assert(registers@.to_set() =~= set![done, result]);
    let iter: u32 = match find_iterator(defs, result, &mut registers) {
        Some(x) => x,
        None => return None,
    };
    add_register(&mut registers, iter);
    let iterable: Expression = match find_source(defs, iter, &mut registers) {
        Some(x) => x,
        None => return None,
    };
    add_aliases(defs, &mut registers);
    let inner = unwrap_iterator_body(&without_first(body));
    Some(LegacyForOf { iterable, value, registers, body: inner })
}

fn is_ensure_call(e: &Expression) -> (r: bool)
    ensures
        r == ensure_call(e@),
{
    proof {
        reveal_with_fuel(Expression::view, 3);
        reveal_with_fuel(PropertyKey::view, 2);
    }
    match e {
        Expression::Call { callee, .. } => match &**callee {
            Expression::Member { property: PropertyKey::Ident(p), .. } => text::same(
                p,
                "ensureObject",
            ),
            _ => false,
        },
        _ => false,
    }
}

fn is_ensure_object_stmt(s: &Statement) -> (r: bool)
    ensures
        r == ensure_object(s@),
{
    match s {
        Statement::Expr(e) => is_ensure_call(e),
        Statement::Assign { value, .. } => is_ensure_call(value),
        _ => false,
    }
}

fn belongs_to(s: &Statement, registers: &Vec<u32>) -> (r: bool)
    ensures
        r == belongs(s@, registers@.to_set()),
{
    is_ensure_object_stmt(s) || match s {
        Statement::Assign { target: AssignTarget::Register(r), .. } => has_register(registers, *r),
        _ => false,
    }
}

fn rebuild(v: &Vec<Statement>, k: usize, made: &Statement, registers: &Vec<u32>) -> (r: Vec<
    Statement,
>)
    ensures
        model::stmts(r@) == rebuilt(model::stmts(v@), k as int, made@, registers@.to_set()),
{
    let ghost s = model::stmts(v@);
    let mut out: Vec<Statement> = Vec::new();
    let mut i: usize = 0;
    assert(model::stmts(out@) =~= Seq::empty());
    while i < v.len()
        invariant
            i <= v.len(),
            s == model::stmts(v@),
            model::stmts(out@) == rebuilt(
                s.take(i as int),
                k as int,
                made@,
                registers@.to_set(),
            ),
        decreases v.len() - i,
    {
        assert(s.take(i + 1).drop_last() =~= s.take(i as int));
        assert(s[i as int] == v@[i as int]@);
        let ghost before = out@;
        if i == k {
            out.push(made.clone());
            assert(model::stmts(out@) =~= model::stmts(before).push(made@));
        } else if !belongs_to(&v[i], registers) {
            out.push(v[i].clone());
            assert(model::stmts(out@) =~= model::stmts(before).push(s[i as int]));
        }
        i += 1;
    }
    assert(s.take(s.len() as int) =~= s);
    out
}

fn find_loop(v: &Vec<Statement>) -> (r: Option<(usize, LegacyForOf)>)
    ensures
        match r {
            Some(p) => p.0 < v@.len() && first_loop(model::stmts(v@), 0) == Some(p.0 as int)
                && protocol_at(model::stmts(v@), p.0 as int) == Some(p.1@),
            None => first_loop(model::stmts(v@), 0) is None,
        },
{
    let ghost s = model::stmts(v@);
    let defs = collect_defs(v);
    let mut i: usize = 0;
    while i < v.len()
        invariant
            i <= v.len(),
            s == model::stmts(v@),
            values(defs@) == defs_at(s),
            first_loop(s, 0) == first_loop(s, i as int),
        decreases v.len() - i,
    {
        assert(s[i as int] == v@[i as int]@);
        if let Statement::While { condition, body } = &v[i] {
            if let Some(f) = match_legacy_for_of(condition, body, &defs) {
                return Some((i, f));
            }
        }
        i += 1;
    }
    None
}

fn recover(v: &Vec<Statement>) -> (r: Vec<Statement>)
    ensures
        model::stmts(r@) == legacy(model::stmts(v@)),
    decreases weight::weight(model::stmts(v@)), 2nat,
{
    let t = recurse_legacy(v);
    proof {
        lemma_legacy_weight(model::stmts(v@));
    }
    match find_loop(&t) {
        Some((k, f)) => {
            proof {
                lemma_protocol_weight(model::stmts(t@), k as int);
            }
            let ghost p = f@;
            let variable = name_of_item(f.value);
            let mut names: BTreeMap<u32, String> = BTreeMap::new();
            names.insert(f.value, variable.clone());
            proof {
                broadcast use vstd::std_specs::btree::group_btree_axioms;

                assert(naming::names(names@) =~= item_names(p.value));
            }
            let body = rename_registers(recover(&f.body), &names);
            let made = Statement::ForOf { variable, iterable: f.iterable, body };
            rebuild(&t, k, &made, &f.registers)
        },
        None => t,
    }
}

fn recurse_legacy(v: &Vec<Statement>) -> (r: Vec<Statement>)
    ensures
        model::stmts(r@) == legacy_inside(model::stmts(v@)),
    decreases weight::weight(model::stmts(v@)), 1nat,
{
    let ghost s = model::stmts(v@);
    let mut out: Vec<Statement> = Vec::new();
    let mut i: usize = 0;
    assert(model::stmts(out@) =~= Seq::empty());
    while i < v.len()
        invariant
            i <= v.len(),
            s == model::stmts(v@),
            model::stmts(out@) == legacy_inside(s.take(i as int)),
        decreases v.len() - i,
    {
        assert(s.take(i + 1).drop_last() =~= s.take(i as int));
        assert(s[i as int] == v@[i as int]@);
        proof {
            weight::lemma_weight_element(s, i as int);
        }
        let ghost before = out@;
        let x = recover_stmt(&v[i]);
        let ghost y = x@;
        out.push(x);
        assert(model::stmts(out@) =~= model::stmts(before).push(y));
        i += 1;
    }
    assert(s.take(s.len() as int) =~= s);
    out
}

fn recover_stmt(s: &Statement) -> (r: Statement)
    ensures
        r@ == legacy_stmt(s@),
    decreases weight::weight_stmt(s@), 0nat,
{
    match s {
        Statement::While { condition, body } => Statement::While {
            condition: condition.clone(),
            body: recover(body),
        },
        Statement::DoWhile { body, condition } => Statement::DoWhile {
            body: recover(body),
            condition: condition.clone(),
        },
        Statement::If { condition, then_body, else_body } => Statement::If {
            condition: condition.clone(),
            then_body: recover(then_body),
            else_body: recover(else_body),
        },
        Statement::For { init, condition, update, body } => Statement::For {
            init: clone_opt_stmt(init),
            condition: clone_opt_expr(condition),
            update: clone_opt_stmt(update),
            body: recover(body),
        },
        Statement::ForOf { variable, iterable, body } => Statement::ForOf {
            variable: variable.clone(),
            iterable: iterable.clone(),
            body: recover(body),
        },
        Statement::ForIn { variable, object, body } => Statement::ForIn {
            variable: variable.clone(),
            object: object.clone(),
            body: recover(body),
        },
        Statement::Block(body) => Statement::Block(recover(body)),
        Statement::TryCatch { try_body, catch_param, catch_body, finally_body } => {
            Statement::TryCatch {
                try_body: recover(try_body),
                catch_param: clone_opt_text(catch_param),
                catch_body: recover(catch_body),
                finally_body: recover(finally_body),
            }
        },
        _ => s.clone(),
    }
}

/// Rebuilds the first `for (x of src)` loop of each body of a function. The arms of a `switch` are
/// left alone.
pub fn detect_legacy_for_of(stmts: Vec<Statement>) -> (r: Vec<Statement>)
    ensures
        model::stmts(r@) == legacy(model::stmts(stmts@)),
{
    recover(&stmts)
}

} // verus!
