//! What holds of the bindings of a module's loads.

use super::detect;
use super::hoist;
use super::hoist::{lemma_bindings_stay_distinct, lemma_plan_is_fresh, lemma_wanted};
use super::kinds;
use super::kinds::{HoistKey, LoaderKind};
use super::survey;
use super::survey::lemma_used_finite;
use crate::ir::bindings;
use crate::ir::model::Stmt;
use crate::ir::occurs;
use crate::ir::occurs::Atom;
use crate::metro::Bundle;
use vstd::prelude::*;

verus! {

/// The bindings planned for the loads of a module.
pub open spec fn module_plan(
    prog: Map<u32, Seq<Stmt>>,
    factory: u32,
    members: Seq<u32>,
    deps: Seq<u32>,
    bundle: Bundle,
    params: Map<u32, Seq<Seq<char>>>,
) -> hoist::Plan {
    let getters = hoist::getter_set(prog, members, factory);
    let v = survey::survey(members, factory, prog, params, getters, deps);
    hoist::plan(
        hoist::wanted(v.eager, v.lazy),
        v.used,
        hoist::existing_in(prog, factory, deps),
        v.eager,
        bundle,
    )
}

/// A module's loads are rewritten to the bindings of its plan, and the plan's declarations stand at
/// the top of its factory. Where nothing is to be hoisted, nothing changes.
pub proof fn lemma_module_follows_its_plan(
    prog: Map<u32, Seq<Stmt>>,
    factory: u32,
    members: Seq<u32>,
    deps: Seq<u32>,
    bundle: Bundle,
    params: Map<u32, Seq<Seq<char>>>,
)
    ensures
        ({
            let getters = hoist::getter_set(prog, members, factory);
            let v = survey::survey(members, factory, prog, params, getters, deps);
            let p = module_plan(prog, factory, members, deps, bundle, params);
            hoist::hoisted_module(prog, factory, members, deps, bundle, params) == (
            if hoist::wanted(v.eager, v.lazy).len() == 0 {
                prog
            } else {
                hoist::with_declarations(
                    hoist::rewritten_program(
                        prog,
                        members,
                        factory,
                        getters,
                        p.bindings,
                        hoist::existing_in(prog, factory, deps),
                        deps,
                    ),
                    factory,
                    p.declarations,
                )
            })
        }),
{
}

proof fn lemma_bound_contains(s: Seq<Atom>, t: Seq<Atom>, n: Seq<char>)
    requires
        survey::bound_names(s).contains(n) || survey::bound_names(t).contains(n),
    ensures
        survey::bound_names(s + t).contains(n),
    decreases t.len(),
{
    if t.len() == 0 {
        assert(s + t =~= s);
    } else {
        assert((s + t).drop_last() =~= s + t.drop_last());
        assert((s + t).last() == t.last());
        if survey::bound_names(s).contains(n) || survey::bound_names(t.drop_last()).contains(n) {
            lemma_bound_contains(s, t.drop_last(), n);
        }
    }
}

/// A body's own definitions bind names of the body.
proof fn lemma_binding_is_local(s: Seq<Stmt>, i: int, n: Seq<char>)
    requires
        0 <= i < s.len(),
        bindings::binding(s[i]) matches Some(p) && p.0 == n,
    ensures
        survey::bound_names(occurs::stmts_atoms(s)).contains(n),
    decreases s.len(),
{
    let t = s.drop_last();
    if i < t.len() {
        assert(t[i] == s[i]);
        lemma_binding_is_local(t, i, n);
    } else {
        let last = s.last();
        let head: Seq<Atom> = match last {
            Stmt::Let { name, .. } => seq![Atom::Declare(name)],
            _ => seq![Atom::WriteVariable(n)],
        };
        assert(head.drop_last() =~= Seq::empty());
        assert(survey::bound_names(head).contains(n)) by {
            reveal_with_fuel(survey::bound_names, 2);
        }
        match last {
            Stmt::Let { value, .. } => {
                lemma_bound_contains(head, occurs::expr_atoms(value), n);
            },
            Stmt::Assign { target, value } => {
                assert(occurs::target_atoms(target) =~= head);
                lemma_bound_contains(head, occurs::expr_atoms(value), n);
            },
            _ => {},
        }
    }
    lemma_bound_contains(occurs::stmts_atoms(t), occurs::stmt_atoms(s.last()), n);
}

/// The loads that a body binds have names of the body, and different loads have different names.
proof fn lemma_bound_loads(
    s: Seq<Stmt>,
    aliases: Map<Seq<char>, LoaderKind>,
    deps: Seq<u32>,
)
    ensures
        ({
            let r = hoist::bound_loads(s, aliases, deps);
            &&& forall|a: int|
                0 <= a < r.len() ==> survey::bound_names(occurs::stmts_atoms(s)).contains(
                    (#[trigger] r[a]).1,
                )
            &&& forall|a: int, b: int|
                0 <= a < r.len() && 0 <= b < r.len() && (#[trigger] r[a]).0 != (#[trigger] r[b]).0
                    ==> r[a].1 != r[b].1
        }),
    decreases s.len(),
{
    if s.len() > 0 {
        let t = s.drop_last();
        let before = hoist::bound_loads(t, aliases, deps);
        let r = hoist::bound_loads(s, aliases, deps);
        lemma_bound_loads(t, aliases, deps);
        assert forall|a: int| 0 <= a < r.len() implies survey::bound_names(
            occurs::stmts_atoms(s),
        ).contains((#[trigger] r[a]).1) by {
            if a < before.len() {
                assert(r[a] == before[a]);
                lemma_bound_contains(
                    occurs::stmts_atoms(t),
                    occurs::stmt_atoms(s.last()),
                    r[a].1,
                );
            } else {
                lemma_binding_is_local(s, s.len() - 1, r[a].1);
            }
        }
        assert forall|a: int, b: int|
            0 <= a < r.len() && 0 <= b < r.len() && (#[trigger] r[a]).0 != (#[trigger] r[b]).0
            implies r[a].1 != r[b].1 by {
            if a < before.len() {
                assert(r[a] == before[a]);
            }
            if b < before.len() {
                assert(r[b] == before[b]);
            }
        }
    }
}

/// The parameters and locals of a module's functions are in use.
pub proof fn lemma_locals_are_in_use(
    members: Seq<u32>,
    factory: u32,
    prog: Map<u32, Seq<Stmt>>,
    params: Map<u32, Seq<Seq<char>>>,
    getters: Set<u32>,
    deps: Seq<u32>,
    id: u32,
)
    requires
        members.contains(id),
    ensures
        ({
            let used = survey::survey(members, factory, prog, params, getters, deps).used;
            &&& prog.dom().contains(id) ==> survey::local_names(prog[id]).subset_of(used)
            &&& params.dom().contains(id) ==> survey::given_names(params[id]).subset_of(used)
        }),
    decreases members.len(),
{
    let i = choose|i: int| 0 <= i < members.len() && members[i] == id;
    let rest = members.drop_last();
    if i < rest.len() {
        assert(rest[i] == id);
        lemma_locals_are_in_use(rest, factory, prog, params, getters, deps, id);
    }
}

/// A new binding shadows no parameter and no local of the module's functions, and takes no reserved
/// name.
pub proof fn lemma_new_bindings_shadow_nothing(
    prog: Map<u32, Seq<Stmt>>,
    factory: u32,
    members: Seq<u32>,
    deps: Seq<u32>,
    bundle: Bundle,
    params: Map<u32, Seq<Seq<char>>>,
    id: u32,
    i: int,
)
    requires
        members.contains(id),
        0 <= i < module_plan(prog, factory, members, deps, bundle, params).declarations.len(),
    ensures
        ({
            let d = module_plan(prog, factory, members, deps, bundle, params).declarations[i];
            &&& d is Let
            &&& prog.dom().contains(id) ==> !survey::local_names(prog[id]).contains(d->Let_name)
            &&& params.dom().contains(id) ==> !survey::given_names(params[id]).contains(
                d->Let_name,
            )
            &&& !kinds::reserved(d->Let_name)
        }),
{
    let getters = hoist::getter_set(prog, members, factory);
    let v = survey::survey(members, factory, prog, params, getters, deps);
    lemma_used_finite(members, factory, prog, params, getters, deps);
    lemma_plan_is_fresh(
        hoist::wanted(v.eager, v.lazy),
        v.used,
        hoist::existing_in(prog, factory, deps),
        v.eager,
        bundle,
    );
    lemma_locals_are_in_use(members, factory, prog, params, getters, deps, id);
    lemma_reserved_are_in_use(members, factory, prog, params, getters, deps);
    let d = module_plan(prog, factory, members, deps, bundle, params).declarations[i];
    assert(!hoist::declares_in(d, v.used));
    survey::lemma_reserved_names(d->Let_name);
}

proof fn lemma_reserved_are_in_use(
    members: Seq<u32>,
    factory: u32,
    prog: Map<u32, Seq<Stmt>>,
    params: Map<u32, Seq<Seq<char>>>,
    getters: Set<u32>,
    deps: Seq<u32>,
)
    ensures
        survey::reserved_names().subset_of(
            survey::survey(members, factory, prog, params, getters, deps).used,
        ),
    decreases members.len(),
{
    if members.len() > 0 {
        lemma_reserved_are_in_use(members.drop_last(), factory, prog, params, getters, deps);
    }
}

/// Different loads never share one binding: neither do loads of one module by different loaders.
pub proof fn lemma_loads_stay_distinct(
    prog: Map<u32, Seq<Stmt>>,
    factory: u32,
    members: Seq<u32>,
    deps: Seq<u32>,
    bundle: Bundle,
    params: Map<u32, Seq<Seq<char>>>,
    i: int,
    j: int,
)
    requires
        members.contains(factory),
        0 <= i < j < module_plan(prog, factory, members, deps, bundle, params).bindings.len(),
    ensures
        ({
            let b = module_plan(prog, factory, members, deps, bundle, params).bindings;
            b[i].0 != b[j].0 && b[i].1 != b[j].1
        }),
{
    let getters = hoist::getter_set(prog, members, factory);
    let v = survey::survey(members, factory, prog, params, getters, deps);
    let keys: Seq<HoistKey> = hoist::wanted(v.eager, v.lazy);
    let existing = hoist::existing_in(prog, factory, deps);
    lemma_used_finite(members, factory, prog, params, getters, deps);
    lemma_locals_are_in_use(members, factory, prog, params, getters, deps, factory);
    if prog.dom().contains(factory) {
        lemma_bound_loads(prog[factory], detect::aliases_of(prog[factory]), deps);
    }
    lemma_wanted(v.eager, v.lazy);
    assert forall|a: int, b: int| 0 <= a < keys.len() && 0 <= b < keys.len() && a != b implies keys[a]
        != keys[b] by {
        if a < b {
            assert(kinds::key_before(keys[a], keys[b]));
        } else {
            assert(kinds::key_before(keys[b], keys[a]));
        }
    }
    assert forall|a: int| 0 <= a < existing.len() implies v.used.contains(
        (#[trigger] existing[a]).1,
    ) by {
        assert(survey::local_names(prog[factory]).contains(existing[a].1));
    }
    lemma_bindings_stay_distinct(keys, v.used, existing, v.eager, bundle, i, j);
}

} // verus!
