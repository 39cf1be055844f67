//! Lazy getters: functions whose whole work is to load one module when they are first called.

use super::detect;
use super::detect::{collect_loader_ids, loader_call};
use super::kinds::LoaderKind;
use crate::dict::Dict;
use crate::ir::model;
use crate::ir::model::{Expr, Key, Prop, Stmt, Target, Val};
use crate::ir::visit;
use crate::ir::{
    AssignTarget, Expression, ObjectProperty, PropertyKey, Statement, Value,
};
use crate::text;
use vstd::prelude::*;

verus! {

pub open spec fn default_key(k: Key) -> bool {
    match k {
        Key::Ident(p) => p == "default"@,
        Key::String(p) => p == "default"@,
        _ => false,
    }
}

fn is_default_key(k: &PropertyKey) -> (r: bool)
    ensures
        r == default_key(k@),
{
    match k {
        PropertyKey::Ident(p) | PropertyKey::String(p) => text::same(p, "default"),
        _ => false,
    }
}

pub open spec fn variable(e: Expr) -> bool {
    e matches Expr::Value(Val::Variable(_))
}

fn is_variable(e: &Expression) -> (r: bool)
    ensures
        r == variable(e@),
{
    match e {
        Expression::Value(Value::Variable(_)) => true,
        _ => false,
    }
}

/// A variable, or the `default` of one.
pub open spec fn var_or_default(e: Expr) -> bool {
    match e {
        Expr::Value(Val::Variable(_)) => true,
        Expr::Member { object, property, .. } => default_key(property) && variable(*object),
        _ => false,
    }
}

fn is_var_or_default_of_var(e: &Expression) -> (r: bool)
    ensures
        r == var_or_default(e@),
{
    match e {
        Expression::Value(Value::Variable(_)) => true,
        Expression::Member { object, property, .. } => is_default_key(property) && is_variable(
            object,
        ),
        _ => false,
    }
}

pub open spec fn interop_name(e: Expr) -> bool {
    match e {
        Expr::Value(Val::Variable(n)) => text::has_part(n, "interop"@),
        _ => false,
    }
}

fn is_interop_name(e: &Expression) -> (r: bool)
    ensures
        r == interop_name(e@),
{
    match e {
        Expression::Value(Value::Variable(n)) => text::contains(n, "interop"),
        _ => false,
    }
}

/// What a lazy getter may handle: a module load, a local, the `default` of such a value, or an
/// interop wrapper around one. Any other property of a module is an eager use.
pub open spec fn plumbing(e: Expr, aliases: Map<Seq<char>, LoaderKind>, deps: Seq<u32>) -> bool
    decreases e,
{
    detect::load_of(e, aliases, deps) is Some || match e {
        Expr::Value(Val::Variable(_)) => true,
        Expr::Member { object, property, .. } => default_key(property) && plumbing(
            *object,
            aliases,
            deps,
        ),
        Expr::Call { callee, arguments } => interop_name(*callee) && arguments.len() == 1
            && plumbing(arguments[0], aliases, deps),
        _ => false,
    }
}

fn is_lazy_plumbing_value(
    e: &Expression,
    aliases: &Dict<LoaderKind>,
    deps: &Vec<u32>,
) -> (r: bool)
    ensures
        r == plumbing(e@, aliases@, deps@),
    decreases e,
{
    if loader_call(e, aliases, deps).is_some() {
        return true;
    }
    match e {
        Expression::Value(Value::Variable(_)) => true,
        Expression::Member { object, property, .. } => is_default_key(property)
            && is_lazy_plumbing_value(object, aliases, deps),
        Expression::Call { callee, arguments } => {
            assert(model::exprs(arguments@).len() == arguments@.len());
            if is_interop_name(callee) && arguments.len() == 1 {
                assert(model::exprs(arguments@)[0] == arguments@[0]@);
                is_lazy_plumbing_value(&arguments[0], aliases, deps)
            } else {
                false
            }
        },
        _ => false,
    }
}

/// The statements that are no comments.
pub open spec fn real_stmts(s: Seq<Stmt>) -> Seq<Stmt>
    decreases s.len(),
{
    if s.len() == 0 {
        Seq::empty()
    } else if s.last() is Comment {
        real_stmts(s.drop_last())
    } else {
        real_stmts(s.drop_last()).push(s.last())
    }
}

/// A definition of a local that only handles the loaded module.
pub open spec fn plumbing_stmt(
    s: Stmt,
    aliases: Map<Seq<char>, LoaderKind>,
    deps: Seq<u32>,
) -> bool {
    match s {
        Stmt::Let { value, .. } => plumbing(value, aliases, deps),
        Stmt::Assign { target: Target::Variable(_), value } => plumbing(value, aliases, deps),
        _ => false,
    }
}

/// The value of a `return`, a declaration or an assignment.
pub open spec fn handled(s: Stmt) -> Option<Expr> {
    match s {
        Stmt::Return(Some(e)) => Some(e),
        Stmt::Let { value, .. } => Some(value),
        Stmt::Assign { value, .. } => Some(value),
        _ => None,
    }
}

/// Whether one of the statements loads the module `id`.
pub open spec fn stmts_load(
    s: Seq<Stmt>,
    aliases: Map<Seq<char>, LoaderKind>,
    deps: Seq<u32>,
    id: u32,
) -> bool {
    exists|i: int|
        0 <= i < s.len() && (handled(#[trigger] s[i]) matches Some(e) && detect::loads_id(
            e,
            aliases,
            deps,
            id,
        ))
}

/// Whether the module `id`, and no other, is loaded.
pub open spec fn loads_only(
    s: Seq<Stmt>,
    aliases: Map<Seq<char>, LoaderKind>,
    deps: Seq<u32>,
    id: u32,
) -> bool {
    forall|x: u32| #[trigger] stmts_load(s, aliases, deps, x) <==> x == id
}

/// Whether the statements have the shape of a lazy getter: at most four, all but the last
/// definitions that handle a loaded module, and the last one returns it.
pub open spec fn getter_shape(
    s: Seq<Stmt>,
    aliases: Map<Seq<char>, LoaderKind>,
    deps: Seq<u32>,
) -> bool {
    &&& 1 <= s.len() <= 4
    &&& s.last() matches Stmt::Return(Some(e)) && (plumbing(e, aliases, deps) || var_or_default(e))
    &&& forall|i: int| 0 <= i < s.len() - 1 ==> plumbing_stmt(#[trigger] s[i], aliases, deps)
}

/// The module that a lazy getter body loads.
pub open spec fn lazy_id(
    s: Seq<Stmt>,
    aliases: Map<Seq<char>, LoaderKind>,
    deps: Seq<u32>,
) -> Option<u32> {
    let body = real_stmts(s);
    if getter_shape(body, aliases, deps) && exists|id: u32| loads_only(body, aliases, deps, id) {
        Some(choose|id: u32| loads_only(body, aliases, deps, id))
    } else {
        None
    }
}

pub open spec fn stmt_refs(s: Seq<&Statement>) -> Seq<Stmt> {
    s.map_values(|x: &Statement| x@)
}

fn without_comments<'a>(stmts: &'a Vec<Statement>) -> (r: Vec<&'a Statement>)
    ensures
        stmt_refs(r@) == real_stmts(model::stmts(stmts@)),
{
    let ghost all = model::stmts(stmts@);
    let mut out: Vec<&'a Statement> = Vec::new();
    let mut i: usize = 0;
    assert(stmt_refs(out@) =~= Seq::empty());
    while i < stmts.len()
        invariant
            i <= stmts.len(),
            all == model::stmts(stmts@),
            stmt_refs(out@) == real_stmts(all.take(i as int)),
        decreases stmts.len() - i,
    {
        assert(all.take(i + 1).drop_last() =~= all.take(i as int));
        assert(all[i as int] == stmts@[i as int]@);
        let ghost before = out@;
        let comment: bool = match &stmts[i] {
            Statement::Comment(_) => true,
            _ => false,
        };
        if !comment {
            out.push(&stmts[i]);
            assert(stmt_refs(out@) =~= stmt_refs(before).push(all[i as int]));
        }
        i += 1;
    }
    assert(all.take(all.len() as int) =~= all);
    out
}

fn is_plumbing_stmt(s: &Statement, aliases: &Dict<LoaderKind>, deps: &Vec<u32>) -> (r: bool)
    ensures
        r == plumbing_stmt(s@, aliases@, deps@),
{
    match s {
        Statement::Let { value, .. } => is_lazy_plumbing_value(value, aliases, deps),
        Statement::Assign { target: AssignTarget::Variable(_), value } => is_lazy_plumbing_value(
            value,
            aliases,
            deps,
        ),
        _ => false,
    }
}

fn body_is_only_loader_plumbing(
    body: &Vec<&Statement>,
    aliases: &Dict<LoaderKind>,
    deps: &Vec<u32>,
) -> (r: bool)
    ensures
        r == getter_shape(stmt_refs(body@), aliases@, deps@),
{
    let ghost all = stmt_refs(body@);
    if body.len() == 0 || body.len() > 4 {
        return false;
    }
    let last = body[body.len() - 1];
    assert(all.last() == last@);
    let returns: bool = match last {
        Statement::Return(Some(e)) => is_lazy_plumbing_value(e, aliases, deps)
            || is_var_or_default_of_var(e),
        _ => false,
    };
    if !returns {
        return false;
    }
    let mut i: usize = 0;
    while i < body.len() - 1
        invariant
            body.len() >= 1,
            i <= body.len() - 1,
            all == stmt_refs(body@),
            forall|k: int| 0 <= k < i ==> plumbing_stmt(#[trigger] all[k], aliases@, deps@),
        decreases body.len() - i,
    {
        assert(all[i as int] == body@[i as int]@);
        if !is_plumbing_stmt(body[i], aliases, deps) {
            return false;
        }
        i += 1;
    }
    true
}

fn loaded_ids(body: &Vec<&Statement>, aliases: &Dict<LoaderKind>, deps: &Vec<u32>) -> (r: Vec<u32>)
    ensures
        forall|id: u32| #[trigger]
            r@.contains(id) <==> stmts_load(stmt_refs(body@), aliases@, deps@, id),
{
    let ghost all = stmt_refs(body@);
    let mut out: Vec<u32> = Vec::new();
    let mut i: usize = 0;
    while i < body.len()
        invariant
            i <= body.len(),
            all == stmt_refs(body@),
            forall|id: u32| #[trigger]
                out@.contains(id) <==> exists|k: int|
                    0 <= k < i && (handled(#[trigger] all[k]) matches Some(e) && detect::loads_id(
                        e,
                        aliases@,
                        deps@,
                        id,
                    )),
        decreases body.len() - i,
    {
        let s = body[i];
        assert(all[i as int] == s@);
        let value: Option<&Expression> = match s {
            Statement::Return(Some(e)) => Some(e),
            Statement::Let { value, .. } => Some(value),
            Statement::Assign { value, .. } => Some(value),
            _ => None,
        };
        if let Some(e) = value {
            assert(handled(all[i as int]) == Some(e@));
            collect_loader_ids(e, aliases, deps, &mut out);
        }
        i += 1;
    }
    out
}

fn find_lazy_id(stmts: &Vec<Statement>, aliases: &Dict<LoaderKind>, deps: &Vec<u32>) -> (r: Option<
    u32,
>)
    ensures
        r == lazy_id(model::stmts(stmts@), aliases@, deps@),
{
    let body = without_comments(stmts);
    let ghost all = stmt_refs(body@);
    if !body_is_only_loader_plumbing(&body, aliases, deps) {
        return None;
    }
    let ids = loaded_ids(&body, aliases, deps);
    if ids.len() == 0 {
        proof {
            if exists|id: u32| loads_only(all, aliases@, deps@, id) {
                let id = choose|id: u32| loads_only(all, aliases@, deps@, id);
                assert(stmts_load(all, aliases@, deps@, id));
                assert(ids@.contains(id));
            }
        }
        return None;
    }
    let first: u32 = ids[0];
    assert(ids@.contains(first));
    assert(stmts_load(all, aliases@, deps@, first));
    let mut i: usize = 0;
    while i < ids.len()
        invariant
            i <= ids.len(),
            stmts_load(all, aliases@, deps@, first),
            all == stmt_refs(body@),
            all == real_stmts(model::stmts(stmts@)),
            forall|id: u32| #[trigger]
                ids@.contains(id) <==> stmts_load(all, aliases@, deps@, id),
            forall|k: int| 0 <= k < i ==> ids@[k] == first,
        decreases ids.len() - i,
    {
        if ids[i] != first {
            proof {
                assert(ids@.contains(ids@[i as int]));
                if exists|id: u32| loads_only(all, aliases@, deps@, id) {
                    let id = choose|id: u32| loads_only(all, aliases@, deps@, id);
                    assert(stmts_load(all, aliases@, deps@, ids@[i as int]));
                    assert(ids@[i as int] == id);
                    assert(first == id);
                }
            }
            return None;
        }
        i += 1;
    }
    proof {
        assert forall|x: u32| #[trigger] stmts_load(all, aliases@, deps@, x) <==> x == first by {
            if stmts_load(all, aliases@, deps@, x) {
                assert(ids@.contains(x));
            }
        }
        assert(loads_only(all, aliases@, deps@, first));
        let id = choose|id: u32| loads_only(all, aliases@, deps@, id);
        assert(stmts_load(all, aliases@, deps@, id));
    }
    Some(first)
}

/// The modules loaded by a body that has the shape of a lazy getter: one, or none where it has
/// not.
pub fn lazy_getter_ids(
    stmts: &Vec<Statement>,
    aliases: &Dict<LoaderKind>,
    deps: &Vec<u32>,
) -> (r: Vec<u32>)
    ensures
        r@ == (match lazy_id(model::stmts(stmts@), aliases@, deps@) {
            Some(id) => seq![id],
            None => Seq::empty(),
        }),
{
    let mut out: Vec<u32> = Vec::new();
    if let Some(id) = find_lazy_id(stmts, aliases, deps) {
        out.push(id);
    }
    out
}

/// Whether a body only loads one module and hands it out.
pub fn is_pure_lazy_getter_body(
    stmts: &Vec<Statement>,
    aliases: &Dict<LoaderKind>,
    deps: &Vec<u32>,
) -> (r: bool)
    ensures
        r == (lazy_id(model::stmts(stmts@), aliases@, deps@) is Some),
{
    find_lazy_id(stmts, aliases, deps).is_some()
}

/// The module loaded by a body that is a single `return` with a single load in it.
pub open spec fn returned_load(
    s: Seq<Stmt>,
    aliases: Map<Seq<char>, LoaderKind>,
    deps: Seq<u32>,
) -> Option<u32> {
    let body = real_stmts(s);
    if body.len() != 1 {
        None
    } else {
        match body[0] {
            Stmt::Return(Some(e)) => {
                let found = detect::loads_in(visit::expr_visits(e), aliases, deps);
                if found.len() == 1 {
                    Some(found[0].0.id)
                } else {
                    None
                }
            },
            _ => None,
        }
    }
}

/// Where a body only returns one load, the module loaded.
pub fn lazy_getter_module(
    stmts: &Vec<Statement>,
    aliases: &Dict<LoaderKind>,
    deps: &Vec<u32>,
) -> (r: Option<u32>)
    ensures
        r == returned_load(model::stmts(stmts@), aliases@, deps@),
{
    let body = without_comments(stmts);
    let ghost all = stmt_refs(body@);
    if body.len() != 1 {
        return None;
    }
    assert(all[0] == body@[0]@);
    if let Statement::Return(Some(e)) = body[0] {
        let found = detect::expr_loads(e, aliases, deps);
        assert(detect::loads(found@).len() == found@.len());
        if found.len() == 1 {
            assert(detect::loads(found@)[0] == (found@[0].0, found@[0].1@));
            return Some(found[0].0.id);
        }
    }
    None
}

/// The functions that variables hold, nested bodies included; the last definition counts.
pub open spec fn fn_vars_stmt(m: Map<Seq<char>, u32>, s: Stmt) -> Map<Seq<char>, u32>
    decreases s,
{
    match s {
        Stmt::Let { name, value: Expr::Function { id, .. }, .. } => m.insert(name, id.0),
        Stmt::Assign { target: Target::Variable(name), value: Expr::Function { id, .. } } => {
            m.insert(name, id.0)
        },
        Stmt::If { then_body, else_body, .. } => fn_vars(fn_vars(m, then_body), else_body),
        Stmt::While { body, .. } => fn_vars(m, body),
        Stmt::DoWhile { body, .. } => fn_vars(m, body),
        Stmt::Block(body) => fn_vars(m, body),
        Stmt::For { init, update, body, .. } => fn_vars(
            fn_vars_opt(fn_vars_opt(m, init), update),
            body,
        ),
        Stmt::ForIn { body, .. } => fn_vars(m, body),
        Stmt::ForOf { body, .. } => fn_vars(m, body),
        Stmt::TryCatch { try_body, catch_body, finally_body, .. } => fn_vars(
            fn_vars(fn_vars(m, try_body), catch_body),
            finally_body,
        ),
        Stmt::Switch { cases, default, .. } => match default {
            Some(d) => fn_vars(fn_vars_cases(m, cases), d),
            None => fn_vars_cases(m, cases),
        },
        _ => m,
    }
}

pub open spec fn fn_vars(m: Map<Seq<char>, u32>, s: Seq<Stmt>) -> Map<Seq<char>, u32>
    decreases s,
{
    if s.len() == 0 {
        m
    } else {
        fn_vars_stmt(fn_vars(m, s.drop_last()), s.last())
    }
}

pub open spec fn fn_vars_opt(m: Map<Seq<char>, u32>, s: Option<Box<Stmt>>) -> Map<Seq<char>, u32>
    decreases s,
{
    match s {
        Some(b) => fn_vars_stmt(m, *b),
        None => m,
    }
}

pub open spec fn fn_vars_cases(
    m: Map<Seq<char>, u32>,
    s: Seq<(Expr, Seq<Stmt>)>,
) -> Map<Seq<char>, u32>
    decreases s,
{
    if s.len() == 0 {
        m
    } else {
        fn_vars(fn_vars_cases(m, s.drop_last()), s.last().1)
    }
}

fn collect_in_stmt(s: &Statement, out: &mut Dict<u32>)
    ensures
        final(out)@ == fn_vars_stmt(old(out)@, s@),
    decreases s,
{
    match s {
        Statement::Let { name, value: Expression::Function { id, .. }, .. } => {
            out.insert(name, id.0);
        },
        Statement::Assign {
            target: AssignTarget::Variable(name),
            value: Expression::Function { id, .. },
        } => {
            out.insert(name, id.0);
        },
        Statement::If { then_body, else_body, .. } => {
            collect_function_bindings(then_body, out);
            collect_function_bindings(else_body, out);
        },
        Statement::While { body, .. } => collect_function_bindings(body, out),
        Statement::DoWhile { body, .. } => collect_function_bindings(body, out),
        Statement::Block(body) => collect_function_bindings(body, out),
        Statement::For { init, update, body, .. } => {
            collect_in_opt(init, out);
            collect_in_opt(update, out);
            collect_function_bindings(body, out);
        },
        Statement::ForIn { body, .. } => collect_function_bindings(body, out),
        Statement::ForOf { body, .. } => collect_function_bindings(body, out),
        Statement::TryCatch { try_body, catch_body, finally_body, .. } => {
            collect_function_bindings(try_body, out);
            collect_function_bindings(catch_body, out);
            collect_function_bindings(finally_body, out);
        },
        Statement::Switch { cases, default, .. } => {
            collect_in_cases(cases, out);
            if let Some(d) = default {
                collect_function_bindings(d, out);
            }
        },
        _ => {},
    }
}

fn collect_in_opt(s: &Option<Box<Statement>>, out: &mut Dict<u32>)
    ensures
        final(out)@ == fn_vars_opt(old(out)@, model::opt_stmt(*s)),
    decreases s,
{
    if let Some(b) = s {
        collect_in_stmt(b, out);
    }
}

fn collect_in_cases(v: &Vec<(Expression, Vec<Statement>)>, out: &mut Dict<u32>)
    ensures
        final(out)@ == fn_vars_cases(old(out)@, model::case_arms(v@)),
    decreases v,
{
    let ghost all = model::case_arms(v@);
    let ghost first = out@;
    let mut i: usize = 0;
    while i < v.len()
        invariant
            i <= v.len(),
            all == model::case_arms(v@),
            out@ == fn_vars_cases(first, all.take(i as int)),
        decreases v.len() - i,
    {
        assert(all.take(i + 1).drop_last() =~= all.take(i as int));
        assert(all[i as int] == model::case_arm(v@[i as int]));
        collect_function_bindings(&v[i].1, out);
        i += 1;
    }
    assert(all.take(all.len() as int) =~= all);
}

/// Adds the functions that variables hold, nested bodies included.
pub fn collect_function_bindings(v: &Vec<Statement>, out: &mut Dict<u32>)
    ensures
        final(out)@ == fn_vars(old(out)@, model::stmts(v@)),
    decreases v,
{
    let ghost all = model::stmts(v@);
    let ghost first = out@;
    let mut i: usize = 0;
    while i < v.len()
        invariant
            i <= v.len(),
            all == model::stmts(v@),
            out@ == fn_vars(first, all.take(i as int)),
        decreases v.len() - i,
    {
        assert(all.take(i + 1).drop_last() =~= all.take(i as int));
        collect_in_stmt(&v[i], out);
        i += 1;
    }
    assert(all.take(all.len() as int) =~= all);
}

pub open spec fn get_key(k: Key) -> bool {
    match k {
        Key::Ident(p) => p == "get"@,
        Key::String(p) => p == "get"@,
        _ => false,
    }
}

fn is_get_key(k: &PropertyKey) -> (r: bool)
    ensures
        r == get_key(k@),
{
    match k {
        PropertyKey::Ident(p) | PropertyKey::String(p) => text::same(p, "get"),
        _ => false,
    }
}

/// The function that an expression is, directly or through a variable.
pub open spec fn function_of(e: Expr, vars: Map<Seq<char>, u32>) -> Option<u32> {
    match e {
        Expr::Function { id, .. } => Some(id.0),
        Expr::Value(Val::Variable(n)) => if vars.dom().contains(n) {
            Some(vars[n])
        } else {
            None
        },
        _ => None,
    }
}

fn function_id_of(e: &Expression, vars: &Dict<u32>) -> (r: Option<u32>)
    ensures
        r == function_of(e@, vars@),
{
    match e {
        Expression::Function { id, .. } => Some(id.0),
        Expression::Value(Value::Variable(n)) => match vars.get(n) {
            Some(id) => Some(*id),
            None => None,
        },
        _ => None,
    }
}

/// Whether a property is a getter that is the function `id`.
pub open spec fn getter_prop(p: Prop, vars: Map<Seq<char>, u32>, id: u32) -> bool {
    get_key(p.key) && function_of(p.value, vars) == Some(id)
}

/// Whether one of the properties is a getter that is the function `id`.
pub open spec fn some_getter(ps: Seq<Prop>, vars: Map<Seq<char>, u32>, id: u32) -> bool {
    exists|i: int| 0 <= i < ps.len() && getter_prop(#[trigger] ps[i], vars, id)
}

/// Whether an expression is an object literal whose getter is the function `id`.
pub open spec fn has_getter(e: Expr, vars: Map<Seq<char>, u32>, id: u32) -> bool {
    match e {
        Expr::Object { properties } => some_getter(properties, vars, id),
        _ => false,
    }
}

/// Whether the function `id` is the `get` of some object literal in the statements.
pub open spec fn getter_in(s: Seq<Stmt>, id: u32) -> bool {
    exists|i: int|
        0 <= i < visit::stmts_visits(s).len() && has_getter(
            #[trigger] visit::stmts_visits(s)[i],
            fn_vars(Map::empty(), s),
            id,
        )
}

fn push_getters(ps: &Vec<ObjectProperty>, vars: &Dict<u32>, out: &mut Vec<u32>)
    ensures
        forall|id: u32| #[trigger]
            final(out)@.contains(id) <==> old(out)@.contains(id) || some_getter(
                model::props(ps@),
                vars@,
                id,
            ),
{
    let ghost all = model::props(ps@);
    let ghost first = out@;
    let mut i: usize = 0;
    while i < ps.len()
        invariant
            i <= ps.len(),
            all == model::props(ps@),
            forall|id: u32| #[trigger]
                out@.contains(id) <==> first.contains(id) || exists|k: int|
                    0 <= k < i && getter_prop(#[trigger] all[k], vars@, id),
        decreases ps.len() - i,
    {
        assert(all[i as int] == ps@[i as int]@);
        let ghost before = out@;
        if is_get_key(&ps[i].key) {
            if let Some(f) = function_id_of(&ps[i].value, vars) {
                out.push(f);
                assert forall|id: u32| #[trigger]
                    out@.contains(id) <==> before.contains(id) || id == f by {
                    if before.contains(id) {
                        let j = choose|j: int| 0 <= j < before.len() && before[j] == id;
                        assert(out@[j] == id);
                    }
                    if id == f {
                        assert(out@[before.len() as int] == id);
                    }
                }
            }
        }
        i += 1;
    }
}

/// The functions that are the `get` of a descriptor in the statements, directly or through a
/// variable that holds the function.
pub fn collect_descriptor_getter_ids(stmts: &Vec<Statement>) -> (r: Vec<u32>)
    ensures
        forall|id: u32| #[trigger] r@.contains(id) <==> getter_in(model::stmts(stmts@), id),
{
    let mut vars: Dict<u32> = Dict::new();
    collect_function_bindings(stmts, &mut vars);
    let es = visit::of_stmts(stmts);
    let ghost all = visit::seen(es@);
    let mut out: Vec<u32> = Vec::new();
    let mut i: usize = 0;
    while i < es.len()
        invariant
            i <= es.len(),
            all == visit::seen(es@),
            forall|id: u32| #[trigger]
                out@.contains(id) <==> exists|k: int|
                    0 <= k < i && has_getter(#[trigger] all[k], vars@, id),
        decreases es.len() - i,
    {
        let e = es[i];
        assert(all[i as int] == e@);
        let ghost before = out@;
        if let Expression::Object { properties } = e {
            assert(model::props(properties@).len() == properties@.len());
            assert(all[i as int] == Expr::Object { properties: model::props(properties@) });
            push_getters(properties, &vars, &mut out);
        } else {
            assert(!(all[i as int] is Object));
        }
        assert forall|id: u32| #[trigger]
            out@.contains(id) <==> before.contains(id) || has_getter(all[i as int], vars@, id) by {}
        i += 1;
    }
    out
}

} // verus!
