//! Loader calls: the names that hold a loader, and the module that a call loads.

use super::kinds::{HoistKey, LoaderKind};
use crate::dict::Dict;
use crate::ir::model;
use crate::ir::model::{Const, Expr, Key, Stmt, Target, Val};
use crate::ir::visit;
use crate::ir::{AssignTarget, Constant, Expression, PropertyKey, Statement, Value};
use crate::text;
use vstd::prelude::*;

verus! {

/// A definition that copies a variable: the name it gives and the variable it copies.
pub open spec fn copied(s: Stmt) -> Option<(Seq<char>, Seq<char>)> {
    match s {
        Stmt::Let { name, value: Expr::Value(Val::Variable(v)), .. } => Some((name, v)),
        Stmt::Assign {
            target: Target::Variable(name),
            value: Expr::Value(Val::Variable(v)),
        } => Some((name, v)),
        _ => None,
    }
}

fn as_copy(s: &Statement) -> (r: Option<(&String, &String)>)
    ensures
        match r {
            Some(p) => copied(s@) == Some((p.0@, p.1@)),
            None => copied(s@) is None,
        },
{
    match s {
        Statement::Let { name, value: Expression::Value(Value::Variable(v)), .. } => Some(
            (name, v),
        ),
        Statement::Assign {
            target: AssignTarget::Variable(name),
            value: Expression::Value(Value::Variable(v)),
        } => Some((name, v)),
        _ => None,
    }
}

/// The names that the statements give to copies.
pub open spec fn copy_names(s: Seq<Stmt>) -> Set<Seq<char>>
    decreases s.len(),
{
    if s.len() == 0 {
        Set::empty()
    } else {
        match copied(s.last()) {
            Some(p) => copy_names(s.drop_last()).insert(p.0),
            None => copy_names(s.drop_last()),
        }
    }
}

/// One pass over the statements: a copy of a name that holds a loader holds it too.
pub open spec fn alias_pass(
    m: Map<Seq<char>, LoaderKind>,
    s: Seq<Stmt>,
) -> Map<Seq<char>, LoaderKind>
    decreases s.len(),
{
    if s.len() == 0 {
        m
    } else {
        let before = alias_pass(m, s.drop_last());
        match copied(s.last()) {
            Some(p) => if before.dom().contains(p.1) {
                before.insert(p.0, before[p.1])
            } else {
                before
            },
            None => before,
        }
    }
}

proof fn lemma_copy_names_finite(s: Seq<Stmt>)
    ensures
        copy_names(s).finite(),
    decreases s.len(),
{
    if s.len() > 0 {
        lemma_copy_names_finite(s.drop_last());
    }
}

/// A pass keeps every name and adds only names of copies.
proof fn lemma_pass_dom(m: Map<Seq<char>, LoaderKind>, s: Seq<Stmt>)
    ensures
        m.dom().subset_of(alias_pass(m, s).dom()),
        alias_pass(m, s).dom().subset_of(m.dom().union(copy_names(s))),
    decreases s.len(),
{
    if s.len() > 0 {
        lemma_pass_dom(m, s.drop_last());
    }
}

/// The names that hold a loader, once no pass adds one.
pub open spec fn closed_aliases(
    m: Map<Seq<char>, LoaderKind>,
    s: Seq<Stmt>,
) -> Map<Seq<char>, LoaderKind>
    decreases copy_names(s).difference(m.dom()).len(),
{
    let next = alias_pass(m, s);
    if next.dom().subset_of(m.dom()) {
        next
    } else {
        proof {
            lemma_pass_shrinks(m, s);
        }
        closed_aliases(next, s)
    }
}

pub proof fn lemma_pass_shrinks(m: Map<Seq<char>, LoaderKind>, s: Seq<Stmt>)
    requires
        !alias_pass(m, s).dom().subset_of(m.dom()),
    ensures
        copy_names(s).difference(alias_pass(m, s).dom()).len() < copy_names(s).difference(
            m.dom(),
        ).len(),
{
    lemma_copy_names_finite(s);
    lemma_pass_dom(m, s);
    let next = alias_pass(m, s);
    let a = copy_names(s).difference(m.dom());
    let b = copy_names(s).difference(next.dom());
    let n = choose|n: Seq<char>| next.dom().contains(n) && !m.dom().contains(n);
    assert(a.contains(n) && !b.contains(n));
    assert(b.subset_of(a.remove(n)));
    vstd::set_lib::lemma_len_subset(b, a.remove(n));
}

/// The built-in loader names.
pub open spec fn seeds() -> Map<Seq<char>, LoaderKind> {
    Map::<Seq<char>, LoaderKind>::empty().insert("require"@, LoaderKind::Require).insert(
        "importDefault"@,
        LoaderKind::ImportDefault,
    ).insert("importAll"@, LoaderKind::ImportAll)
}

/// The names that hold a loader in a body, each with the loader it holds.
pub open spec fn aliases_of(s: Seq<Stmt>) -> Map<Seq<char>, LoaderKind> {
    closed_aliases(seeds(), s)
}

/// A copy of a name that holds a loader holds one itself.
pub proof fn lemma_aliases_are_closed(m: Map<Seq<char>, LoaderKind>, s: Seq<Stmt>, i: int)
    requires
        0 <= i < s.len(),
    ensures
        copied(s[i]) matches Some(p) ==> closed_aliases(m, s).dom().contains(p.1)
            ==> closed_aliases(m, s).dom().contains(p.0),
    decreases copy_names(s).difference(m.dom()).len(),
{
    let next = alias_pass(m, s);
    if next.dom().subset_of(m.dom()) {
        lemma_pass_dom(m, s);
        if let Some(p) = copied(s[i]) {
            if next.dom().contains(p.1) {
                lemma_pass_follows(m, s, i);
            }
        }
    } else {
        lemma_pass_shrinks(m, s);
        lemma_aliases_are_closed(next, s, i);
    }
}

proof fn lemma_pass_follows(m: Map<Seq<char>, LoaderKind>, s: Seq<Stmt>, i: int)
    requires
        0 <= i < s.len(),
        copied(s[i]) matches Some(p) && m.dom().contains(p.1),
    ensures
        copied(s[i]) matches Some(p) && alias_pass(m, s).dom().contains(p.0),
    decreases s.len(),
{
    if i == s.len() - 1 {
        lemma_pass_dom(m, s.drop_last());
    } else {
        assert(s.drop_last()[i] == s[i]);
        lemma_pass_follows(m, s.drop_last(), i);
    }
}

/// The names that hold a loader in a body: the loaders themselves, and copies of such names.
pub fn loader_aliases(stmts: &Vec<Statement>) -> (r: Dict<LoaderKind>)
    ensures
        r@ == aliases_of(model::stmts(stmts@)),
{
    let ghost all = model::stmts(stmts@);
    let mut map: Dict<LoaderKind> = Dict::new();
    map.insert("require", LoaderKind::Require);
    map.insert("importDefault", LoaderKind::ImportDefault);
    map.insert("importAll", LoaderKind::ImportAll);
    let mut changed: bool = true;
    while changed
        invariant
            all == model::stmts(stmts@),
            changed ==> aliases_of(all) == closed_aliases(map@, all),
            !changed ==> aliases_of(all) == map@,
        decreases
                (if changed {
                    1int
                } else {
                    0int
                }),
                copy_names(all).difference(map@.dom()).len(),
    {
        let ghost before = map@;
        changed = false;
        let mut i: usize = 0;
        while i < stmts.len()
            invariant
                i <= stmts.len(),
                all == model::stmts(stmts@),
                map@ == alias_pass(before, all.take(i as int)),
                changed == !map@.dom().subset_of(before.dom()),
            decreases stmts.len() - i,
        {
            assert(all.take(i + 1).drop_last() =~= all.take(i as int));
            assert(all[i as int] == stmts@[i as int]@);
            proof {
                lemma_pass_dom(before, all.take(i as int));
            }
            if let Some((name, v)) = as_copy(&stmts[i]) {
                let found: Option<LoaderKind> = match map.get(v) {
                    Some(k) => Some(*k),
                    None => None,
                };
                if let Some(kind) = found {
                    if !map.contains(name) {
                        changed = true;
                    }
                    let ghost mid = map@;
                    map.insert(name, kind);
                    assert(map@.dom() =~= mid.dom().insert(name@));
                    proof {
                        if !mid.dom().contains(name@) {
                            assert(map@.dom().contains(name@) && !before.dom().contains(name@));
                        } else {
                            assert(map@.dom() =~= mid.dom());
                        }
                    }
                }
            }
            i += 1;
        }
        assert(all.take(all.len() as int) =~= all);
        if changed {
            proof {
                lemma_pass_shrinks(before, all);
            }
        }
    }
    map
}

/// The names of a factory's dependency array.
pub open spec fn depmap_name(n: Seq<char>) -> bool {
    ||| n == "_dependencyMap"@
    ||| n == "deps"@
    ||| text::has_prefix(n, "dependencyMap"@)
    ||| text::has_prefix(n, "deps"@) && n.len() > 4 && text::all_digits(
        n.subrange(4, n.len() as int),
    )
}

fn is_depmap_name(n: &str) -> (r: bool)
    ensures
        r == depmap_name(n@),
{
    let len: usize = n.unicode_len();
    text::same(n, "_dependencyMap") || text::same(n, "deps") || text::starts_with(
        n,
        "dependencyMap",
    ) || (text::starts_with(n, "deps") && len > 4 && text::is_all_digits(&text::slice(n, 4, len)))
}

pub open spec fn depmap_object(e: Expr) -> bool {
    match e {
        Expr::Value(Val::Variable(n)) => depmap_name(n),
        _ => false,
    }
}

fn is_depmap_object(e: &Expression) -> (r: bool)
    ensures
        r == depmap_object(e@),
{
    match e {
        Expression::Value(Value::Variable(n)) => is_depmap_name(n),
        _ => false,
    }
}

pub open spec fn dependency(deps: Seq<u32>, i: int) -> Option<u32> {
    if 0 <= i < deps.len() {
        Some(deps[i])
    } else {
        None
    }
}

/// The absolute id of the module that a loader's argument names: a number, or an entry of the
/// dependency array.
pub open spec fn module_id(arg: Expr, deps: Seq<u32>) -> Option<u32> {
    match arg {
        Expr::Value(Val::Constant(Const::Integer(n))) => if n >= 0 {
            Some(n as u32)
        } else {
            None
        },
        Expr::Member { object, property, .. } => if depmap_object(*object) {
            match property {
                Key::Index(i) => dependency(deps, i as int),
                Key::Computed(k) => match *k {
                    Expr::Value(Val::Constant(Const::Integer(i))) => dependency(deps, i as int),
                    _ => None,
                },
                _ => None,
            }
        } else {
            None
        },
        _ => None,
    }
}

fn dependency_at(deps: &Vec<u32>, i: i64) -> (r: Option<u32>)
    ensures
        r == dependency(deps@, i as int),
{
    if i >= 0 && (i as u64) < deps.len() as u64 {
        Some(deps[i as usize])
    } else {
        None
    }
}

/// Resolves a loader's argument to an absolute module id.
pub fn resolve_module_id(arg: &Expression, deps: &Vec<u32>) -> (r: Option<u32>)
    ensures
        r == module_id(arg@, deps@),
{
    proof {
        reveal_with_fuel(Expression::view, 3);
        reveal_with_fuel(PropertyKey::view, 3);
    }
    match arg {
        Expression::Value(Value::Constant(Constant::Integer(n))) => if *n >= 0 {
            Some(*n as u32)
        } else {
            None
        },
        Expression::Member { object, property, .. } => {
            if !is_depmap_object(object) {
                return None;
            }
            match property {
                PropertyKey::Index(i) => dependency_at(deps, *i),
                PropertyKey::Computed(k) => match &**k {
                    Expression::Value(Value::Constant(Constant::Integer(i))) => dependency_at(
                        deps,
                        *i as i64,
                    ),
                    _ => None,
                },
                _ => None,
            }
        },
        _ => None,
    }
}

/// The module that `LOADER(id)` loads and the loader, where the callee holds a loader. An
/// `undefined` receiver is skipped.
pub open spec fn load_of(
    e: Expr,
    aliases: Map<Seq<char>, LoaderKind>,
    deps: Seq<u32>,
) -> Option<HoistKey> {
    match e {
        Expr::Call { callee, arguments } => match *callee {
            Expr::Value(Val::Variable(n)) => {
                let at: int = if arguments.len() > 0 && arguments[0] == Expr::Value(
                    Val::Constant(Const::Undefined),
                ) {
                    1
                } else {
                    0
                };
                if aliases.dom().contains(n) && at < arguments.len() {
                    match module_id(arguments[at], deps) {
                        Some(id) => Some(HoistKey { id, kind: aliases[n] }),
                        None => None,
                    }
                } else {
                    None
                }
            },
            _ => None,
        },
        _ => None,
    }
}

/// The module and loader of a loader call.
pub fn loader_call(
    e: &Expression,
    aliases: &Dict<LoaderKind>,
    deps: &Vec<u32>,
) -> (r: Option<HoistKey>)
    ensures
        r == load_of(e@, aliases@, deps@),
{
    if let Expression::Call { callee, arguments } = e {
        if let Expression::Value(Value::Variable(n)) = &**callee {
            let kind: LoaderKind = match aliases.get(n) {
                Some(k) => *k,
                None => {
                    assert(callee@ == Expr::Value(Val::Variable(n@)));
                    return None;
                },
            };
            assert(callee@ == Expr::Value(Val::Variable(n@)));
            let ghost args = model::exprs(arguments@);
            assert(args.len() == arguments@.len());
            assert(forall|i: int| 0 <= i < args.len() ==> args[i] == arguments@[i]@);
            assert(arguments@.len() > 0 ==> args[0] == arguments@[0]@);
            let at: usize = if arguments.len() > 0 && is_undefined(&arguments[0]) {
                1
            } else {
                0
            };
            if at >= arguments.len() {
                return None;
            }
            assert(args[at as int] == arguments@[at as int]@);
            return match resolve_module_id(&arguments[at], deps) {
                Some(id) => Some(HoistKey { id, kind }),
                None => None,
            };
        }
        assert(!(callee@ matches Expr::Value(Val::Variable(_))));
    }
    None
}

fn is_undefined(e: &Expression) -> (r: bool)
    ensures
        r == (e@ == Expr::Value(Val::Constant(Const::Undefined))),
{
    match e {
        Expression::Value(Value::Constant(Constant::Undefined)) => true,
        _ => false,
    }
}

/// The callee of a call.
pub open spec fn callee_of(e: Expr) -> Expr {
    match e {
        Expr::Call { callee, .. } => *callee,
        _ => e,
    }
}

/// The loader calls among the expressions visited, in order, each with its callee.
pub open spec fn loads_in(
    es: Seq<Expr>,
    aliases: Map<Seq<char>, LoaderKind>,
    deps: Seq<u32>,
) -> Seq<(HoistKey, Expr)>
    decreases es.len(),
{
    if es.len() == 0 {
        Seq::empty()
    } else {
        let before = loads_in(es.drop_last(), aliases, deps);
        match load_of(es.last(), aliases, deps) {
            Some(k) => before.push((k, callee_of(es.last()))),
            None => before,
        }
    }
}

/// The models of loader calls.
pub open spec fn loads(s: Seq<(HoistKey, Expression)>) -> Seq<(HoistKey, Expr)> {
    s.map_values(|p: (HoistKey, Expression)| (p.0, p.1@))
}

fn collect_loads(
    es: &Vec<&Expression>,
    aliases: &Dict<LoaderKind>,
    deps: &Vec<u32>,
) -> (r: Vec<(HoistKey, Expression)>)
    ensures
        loads(r@) == loads_in(visit::seen(es@), aliases@, deps@),
{
    let ghost all = visit::seen(es@);
    let mut out: Vec<(HoistKey, Expression)> = Vec::new();
    let mut i: usize = 0;
    assert(loads(out@) =~= Seq::empty());
    while i < es.len()
        invariant
            i <= es.len(),
            all == visit::seen(es@),
            loads(out@) == loads_in(all.take(i as int), aliases@, deps@),
        decreases es.len() - i,
    {
        assert(all.take(i + 1).drop_last() =~= all.take(i as int));
        let e = es[i];
        assert(all[i as int] == e@);
        if let Some(k) = loader_call(e, aliases, deps) {
            if let Expression::Call { callee, .. } = e {
                let ghost before = out@;
                out.push((k, (**callee).clone()));
                assert(loads(out@) =~= loads(before).push((k, callee@)));
            }
        }
        i += 1;
    }
    assert(all.take(all.len() as int) =~= all);
    out
}

/// The loader calls in a body, each with its callee, in source order.
pub fn loader_uses(
    stmts: &Vec<Statement>,
    aliases: &Dict<LoaderKind>,
    deps: &Vec<u32>,
) -> (r: Vec<(HoistKey, Expression)>)
    ensures
        loads(r@) == loads_in(visit::stmts_visits(model::stmts(stmts@)), aliases@, deps@),
{
    collect_loads(&visit::of_stmts(stmts), aliases, deps)
}

/// The loader calls in an expression, each with its callee.
pub fn expr_loads(
    e: &Expression,
    aliases: &Dict<LoaderKind>,
    deps: &Vec<u32>,
) -> (r: Vec<(HoistKey, Expression)>)
    ensures
        loads(r@) == loads_in(visit::expr_visits(e@), aliases@, deps@),
{
    collect_loads(&visit::of_expr(e), aliases, deps)
}

/// Whether an expression loads the module `id` at some depth.
pub open spec fn loads_id(
    e: Expr,
    aliases: Map<Seq<char>, LoaderKind>,
    deps: Seq<u32>,
    id: u32,
) -> bool {
    exists|i: int|
        0 <= i < visit::expr_visits(e).len() && (load_of(
            #[trigger] visit::expr_visits(e)[i],
            aliases,
            deps,
        ) matches Some(k) && k.id == id)
}

/// Adds the modules that an expression loads, at any depth.
pub fn collect_loader_ids(
    e: &Expression,
    aliases: &Dict<LoaderKind>,
    deps: &Vec<u32>,
    out: &mut Vec<u32>,
)
    ensures
        forall|id: u32| #[trigger]
            final(out)@.contains(id) <==> old(out)@.contains(id) || loads_id(
                e@,
                aliases@,
                deps@,
                id,
            ),
{
    let es = visit::of_expr(e);
    let ghost all = visit::seen(es@);
    let ghost first = out@;
    let mut i: usize = 0;
    while i < es.len()
        invariant
            i <= es.len(),
            all == visit::seen(es@),
            all == visit::expr_visits(e@),
            forall|id: u32| #[trigger]
                out@.contains(id) <==> first.contains(id) || exists|k: int|
                    0 <= k < i && (load_of(#[trigger] all[k], aliases@, deps@) matches Some(h)
                        && h.id == id),
        decreases es.len() - i,
    {
        let x = es[i];
        assert(all[i as int] == x@);
        let ghost before = out@;
        if let Some(k) = loader_call(x, aliases, deps) {
            out.push(k.id);
            assert forall|id: u32| #[trigger]
                out@.contains(id) <==> before.contains(id) || id == k.id by {
                if before.contains(id) {
                    let j = choose|j: int| 0 <= j < before.len() && before[j] == id;
                    assert(out@[j] == id);
                }
                if id == k.id {
                    assert(out@[before.len() as int] == id);
                }
            }
        }
        i += 1;
    }
}

/// `loader(1234)` and `loader(dependencyMap[i])` are the same load where the dependency array has
/// that id at that place.
pub proof fn lemma_ids_unify(
    callee: Expr,
    object: Expr,
    optional: bool,
    i: i64,
    aliases: Map<Seq<char>, LoaderKind>,
    deps: Seq<u32>,
)
    requires
        depmap_object(object),
        0 <= i < deps.len(),
        deps[i as int] <= i32::MAX,
    ensures
        ({
            let entry = Expr::Member { object: Box::new(object), property: Key::Index(i), optional };
            let id = Expr::Value(Val::Constant(Const::Integer(deps[i as int] as i32)));
            load_of(
                Expr::Call { callee: Box::new(callee), arguments: seq![entry] },
                aliases,
                deps,
            ) == load_of(
                Expr::Call { callee: Box::new(callee), arguments: seq![id] },
                aliases,
                deps,
            )
        }),
{
}

} // verus!
