//! Hoists the eager loads of a module: plans the bindings, rewrites the loads, and puts the new
//! bindings at the top of the factory.

use super::detect;
use super::detect::{loader_aliases, loader_call};
use super::kinds;
use super::kinds::{is_key_before, is_reserved_binding, HoistKey, LoaderKind};
use super::members;
use super::members::descendants;
use super::names;
use super::names::allocate_binding_name;
use super::rewrite;
use super::rewrite::{find_name, rewrite_stmt, rewrite_stmts, Hoisting, LoaderRewriter};
use super::survey;
use super::survey::{find_getters, find_handed_out, take_survey};
use crate::dict::{keys_in_order, Dict, NameSet};
use crate::ir::bindings;
use crate::ir::bindings::as_binding;
use crate::ir::cloning::clone_stmts;
use crate::ir::model;
use crate::ir::model::{Const, Expr, Stmt, Val};
use crate::ir::{Constant, Expression, Statement, Value, VarKind};
use crate::metro::{Bundle, MetroRegistry};
use crate::names::sanitize_identifier;
use crate::text;
use std::collections::BTreeMap;
use vstd::prelude::*;

verus! {

/// The load that a definition binds to a name.
pub open spec fn bound_load(
    s: Stmt,
    aliases: Map<Seq<char>, LoaderKind>,
    deps: Seq<u32>,
) -> Option<(HoistKey, Seq<char>)> {
    match bindings::binding(s) {
        Some(p) => match detect::load_of(p.1, aliases, deps) {
            Some(k) => Some((k, p.0)),
            None => None,
        },
        None => None,
    }
}

fn find_bound_load<'a>(
    s: &'a Statement,
    aliases: &Dict<LoaderKind>,
    deps: &Vec<u32>,
) -> (r: Option<(HoistKey, &'a String)>)
    ensures
        match r {
            Some(p) => bound_load(s@, aliases@, deps@) == Some((p.0, p.1@)),
            None => bound_load(s@, aliases@, deps@) is None,
        },
{
    match as_binding(s) {
        Some(p) => match loader_call(p.1, aliases, deps) {
            Some(k) => Some((k, p.0)),
            None => None,
        },
        None => None,
    }
}

/// Whether a name is bound to another load.
pub open spec fn claimed(s: Seq<(HoistKey, Seq<char>)>, p: (HoistKey, Seq<char>)) -> bool {
    exists|a: int| 0 <= a < s.len() && (#[trigger] s[a]).0 != p.0 && s[a].1 == p.1
}

fn is_claimed(v: &Vec<(HoistKey, String)>, k: HoistKey, n: &String) -> (r: bool)
    ensures
        r == claimed(rewrite::named_keys(v@), (k, n@)),
{
    let ghost all = rewrite::named_keys(v@);
    let mut i: usize = 0;
    while i < v.len()
        invariant
            i <= v.len(),
            all == rewrite::named_keys(v@),
            forall|a: int| 0 <= a < i ==> !((#[trigger] all[a]).0 != k && all[a].1 == n@),
        decreases v.len() - i,
    {
        assert(all[i as int] == (v@[i as int].0, v@[i as int].1@));
        if v[i].0 != k && text::same(&v[i].1, n) {
            return true;
        }
        i += 1;
    }
    false
}

/// The loads that a body's own statements bind, in order. A name stays with the first load that it
/// is bound to.
pub open spec fn bound_loads(
    s: Seq<Stmt>,
    aliases: Map<Seq<char>, LoaderKind>,
    deps: Seq<u32>,
) -> Seq<(HoistKey, Seq<char>)>
    decreases s.len(),
{
    if s.len() == 0 {
        Seq::empty()
    } else {
        let before = bound_loads(s.drop_last(), aliases, deps);
        match bound_load(s.last(), aliases, deps) {
            Some(p) => if claimed(before, p) {
                before
            } else {
                before.push(p)
            },
            None => before,
        }
    }
}

fn find_bound_loads(
    stmts: &Vec<Statement>,
    aliases: &Dict<LoaderKind>,
    deps: &Vec<u32>,
) -> (r: Vec<(HoistKey, String)>)
    ensures
        rewrite::named_keys(r@) == bound_loads(model::stmts(stmts@), aliases@, deps@),
{
    let ghost all = model::stmts(stmts@);
    let mut out: Vec<(HoistKey, String)> = Vec::new();
    let mut i: usize = 0;
    assert(rewrite::named_keys(out@) =~= Seq::empty());
    while i < stmts.len()
        invariant
            i <= stmts.len(),
            all == model::stmts(stmts@),
            rewrite::named_keys(out@) == bound_loads(all.take(i as int), aliases@, deps@),
        decreases stmts.len() - i,
    {
        assert(all.take(i + 1).drop_last() =~= all.take(i as int));
        assert(all[i as int] == stmts@[i as int]@);
        if let Some((k, n)) = find_bound_load(&stmts[i], aliases, deps) {
            if !is_claimed(&out, k, n) {
                let ghost before = out@;
                out.push((k, n.clone()));
                assert(rewrite::named_keys(out@) =~= rewrite::named_keys(before).push((k, n@)));
            }
        }
        i += 1;
    }
    assert(all.take(all.len() as int) =~= all);
    out
}

/// A sorted list of keys with `k` in it.
pub open spec fn with_key(s: Seq<HoistKey>, k: HoistKey) -> Seq<HoistKey>
    decreases s.len(),
{
    if s.len() == 0 {
        seq![k]
    } else if s.last() == k {
        s
    } else if kinds::key_before(s.last(), k) {
        s.push(k)
    } else {
        with_key(s.drop_last(), k).push(s.last())
    }
}

/// The keys of the eager loads of modules that are never loaded lazily, in order.
pub open spec fn wanted(eager: Seq<(HoistKey, Expr)>, lazy: Set<u32>) -> Seq<HoistKey>
    decreases eager.len(),
{
    if eager.len() == 0 {
        Seq::empty()
    } else if lazy.contains(eager.last().0.id) {
        wanted(eager.drop_last(), lazy)
    } else {
        with_key(wanted(eager.drop_last(), lazy), eager.last().0)
    }
}

pub open spec fn sorted_keys(s: Seq<HoistKey>) -> bool {
    forall|i: int, j: int| 0 <= i < j < s.len() ==> kinds::key_before(#[trigger] s[i], #[trigger] s[j])
}

proof fn lemma_with_key(s: Seq<HoistKey>, k: HoistKey)
    requires
        sorted_keys(s),
    ensures
        sorted_keys(with_key(s, k)),
        forall|x: HoistKey| #[trigger] with_key(s, k).contains(x) <==> s.contains(x) || x == k,
    decreases s.len(),
{
    let r = with_key(s, k);
    if s.len() == 0 {
        assert(r[0] == k);
    } else if s.last() == k {
        assert(s[s.len() - 1] == k);
    } else if kinds::key_before(s.last(), k) {
        assert forall|i: int| 0 <= i < s.len() implies kinds::key_before(#[trigger] s[i], k) by {
            if i < s.len() - 1 {
                assert(kinds::key_before(s[i], s[s.len() - 1]));
            }
        }
        assert(r[s.len() as int] == k);
        assert forall|x: HoistKey| s.contains(x) implies r.contains(x) by {
            let i = choose|i: int| 0 <= i < s.len() && s[i] == x;
            assert(r[i] == x);
        }
    } else {
        let t = s.drop_last();
        let last = s.last();
        lemma_with_key(t, k);
        let u = with_key(t, k);
        assert forall|i: int| 0 <= i < u.len() implies kinds::key_before(#[trigger] u[i], last) by {
            assert(u.contains(u[i]));
            if t.contains(u[i]) {
                let j = choose|j: int| 0 <= j < t.len() && t[j] == u[i];
                assert(s[j] == u[i]);
                assert(kinds::key_before(s[j], s[s.len() - 1]));
            }
        }
        assert forall|x: HoistKey| #[trigger] r.contains(x) <==> s.contains(x) || x == k by {
            if r.contains(x) {
                let i = choose|i: int| 0 <= i < r.len() && r[i] == x;
                if i < u.len() {
                    assert(u.contains(x));
                    if t.contains(x) {
                        let j = choose|j: int| 0 <= j < t.len() && t[j] == x;
                        assert(s[j] == x);
                    }
                } else {
                    assert(s[s.len() - 1] == x);
                }
            }
            if s.contains(x) {
                let i = choose|i: int| 0 <= i < s.len() && s[i] == x;
                if i < s.len() - 1 {
                    assert(t[i] == x);
                    assert(u.contains(x));
                } else {
                    assert(r[u.len() as int] == x);
                }
            }
            if u.contains(x) {
                let i = choose|i: int| 0 <= i < u.len() && u[i] == x;
                assert(r[i] == x);
            }
        }
    }
}

/// The keys to be hoisted are in order, and are those of the eager loads of modules that are
/// never loaded lazily.
pub proof fn lemma_wanted(eager: Seq<(HoistKey, Expr)>, lazy: Set<u32>)
    ensures
        sorted_keys(wanted(eager, lazy)),
        forall|k: HoistKey| #[trigger]
            wanted(eager, lazy).contains(k) <==> !lazy.contains(k.id) && exists|i: int|
                0 <= i < eager.len() && (#[trigger] eager[i]).0 == k,
    decreases eager.len(),
{
    if eager.len() > 0 {
        let t = eager.drop_last();
        let last = eager.last().0;
        lemma_wanted(t, lazy);
        if !lazy.contains(last.id) {
            lemma_with_key(wanted(t, lazy), last);
        }
        assert forall|k: HoistKey| #[trigger]
            wanted(eager, lazy).contains(k) <==> !lazy.contains(k.id) && exists|i: int|
                0 <= i < eager.len() && (#[trigger] eager[i]).0 == k by {
            if exists|i: int| 0 <= i < eager.len() && (#[trigger] eager[i]).0 == k {
                let i = choose|i: int| 0 <= i < eager.len() && (#[trigger] eager[i]).0 == k;
                if i < t.len() {
                    assert(t[i].0 == k);
                }
            }
            if exists|i: int| 0 <= i < t.len() && (#[trigger] t[i]).0 == k {
                let i = choose|i: int| 0 <= i < t.len() && (#[trigger] t[i]).0 == k;
                assert(eager[i].0 == k);
            }
            assert(eager[eager.len() - 1].0 == last);
        }
    }
}

fn add_key(v: &mut Vec<HoistKey>, k: HoistKey)
    ensures
        final(v)@ == with_key(old(v)@, k),
{
    let ghost all = v@;
    let mut i: usize = v.len();
    assert(all.take(i as int) =~= all);
    assert(with_key(all, k) =~= with_key(all.take(i as int), k) + all.skip(i as int));
    while i > 0
        invariant
            i <= v.len(),
            v@ == all,
            with_key(all, k) == with_key(all.take(i as int), k) + all.skip(i as int),
        ensures
            i <= v.len(),
            v@ == all,
            with_key(all, k) == all.take(i as int).push(k) + all.skip(i as int),
        decreases i,
    {
        let ghost t = all.take(i as int);
        let last: HoistKey = v[i - 1];
        assert(t.last() == last);
        assert(t.drop_last() =~= all.take(i - 1));
        if last == k {
            assert(t + all.skip(i as int) =~= all);
            return;
        }
        if is_key_before(last, k) {
            break;
        }
        assert(with_key(all.take(i - 1), k).push(last) + all.skip(i as int) =~= with_key(
            all.take(i - 1),
            k,
        ) + all.skip(i - 1));
        i -= 1;
        if i == 0 {
            assert(all.take(0) =~= Seq::empty());
            assert(with_key(all.take(0), k) =~= all.take(0).push(k));
        }
    }
    v.insert(i, k);
    assert(v@ =~= all.take(i as int).push(k) + all.skip(i as int));
}

fn is_lazy(v: &Vec<u32>, x: u32) -> (r: bool)
    ensures
        r == v@.to_set().contains(x),
{
    let mut i: usize = 0;
    while i < v.len()
        invariant
            i <= v.len(),
            forall|k: int| 0 <= k < i ==> v@[k] != x,
        decreases v.len() - i,
    {
        if v[i] == x {
            return true;
        }
        i += 1;
    }
    false
}

fn wanted_keys(eager: &Vec<(HoistKey, Expression)>, lazy: &Vec<u32>) -> (r: Vec<HoistKey>)
    ensures
        r@ == wanted(detect::loads(eager@), lazy@.to_set()),
{
    let ghost all = detect::loads(eager@);
    let mut out: Vec<HoistKey> = Vec::new();
    let mut i: usize = 0;
    assert(out@ =~= Seq::empty());
    while i < eager.len()
        invariant
            i <= eager.len(),
            all == detect::loads(eager@),
            out@ == wanted(all.take(i as int), lazy@.to_set()),
        decreases eager.len() - i,
    {
        assert(all.take(i + 1).drop_last() =~= all.take(i as int));
        assert(all[i as int] == (eager@[i as int].0, eager@[i as int].1@));
        if !is_lazy(lazy, eager[i].0.id) {
            add_key(&mut out, eager[i].0);
        }
        i += 1;
    }
    assert(all.take(all.len() as int) =~= all);
    out
}

/// The preferred name of a binding: the module's own name, told apart by the loader.
pub open spec fn preferred(bundle: Bundle, k: HoistKey) -> Option<Seq<char>> {
    if !bundle.names.dom().contains(k.id) {
        None
    } else {
        match bundle.names[k.id] {
            Some(n) => {
                let base = crate::names::sanitized(n);
                if base.len() == 0 || kinds::reserved(base) {
                    None
                } else {
                    Some(told_apart(base, k.kind))
                }
            },
            None => None,
        }
    }
}

/// A module's name with the loader's suffix.
pub open spec fn told_apart(base: Seq<char>, kind: LoaderKind) -> Seq<char> {
    match kind {
        LoaderKind::Require => base,
        LoaderKind::ImportDefault => if text::has_suffix(base, "Default"@) {
            base
        } else {
            base + "Default"@
        },
        LoaderKind::ImportAll => if text::has_suffix(base, "All"@) {
            base
        } else {
            base + "All"@
        },
    }
}

fn tell_apart(base: String, kind: LoaderKind) -> (r: String)
    ensures
        r@ == told_apart(base@, kind),
{
    match kind {
        LoaderKind::Require => base,
        LoaderKind::ImportDefault => if text::ends_with(&base, "Default") {
            base
        } else {
            text::concat2(&base, "Default")
        },
        LoaderKind::ImportAll => if text::ends_with(&base, "All") {
            base
        } else {
            text::concat2(&base, "All")
        },
    }
}

fn preferred_name(registry: &MetroRegistry, k: HoistKey) -> (r: Option<String>)
    ensures
        text::opt(r) == preferred(registry@, k),
{
    broadcast use vstd::std_specs::btree::group_btree_axioms;

    match registry.modules.get(&k.id) {
        Some(m) => {
            assert(registry@.names[k.id] == text::opt(m.name));
            match &m.name {
                Some(n) => {
                    let base = sanitize_identifier(n);
                    if base.as_str().is_empty() || is_reserved_binding(&base) {
                        None
                    } else {
                        Some(tell_apart(base, k.kind))
                    }
                },
                None => None,
            }
        },
        None => None,
    }
}

/// The bindings of the hoisted loads, the declarations of the new ones, and the names in use.
#[verifier::ext_equal]
pub struct Plan {
    pub bindings: Seq<(HoistKey, Seq<char>)>,
    pub declarations: Seq<Stmt>,
    pub used: Set<Seq<char>>,
}

/// `const name = callee(id)`.
pub open spec fn declaration(name: Seq<char>, callee: Expr, id: u32) -> Stmt {
    Stmt::Let {
        name,
        value: Expr::Call {
            callee: Box::new(callee),
            arguments: seq![Expr::Value(Val::Constant(Const::Integer(id as i32)))],
        },
        kind: VarKind::Const,
    }
}

/// The plan with one more key. A load that the factory already binds keeps that binding.
pub open spec fn plan_step(
    p: Plan,
    k: HoistKey,
    existing: Seq<(HoistKey, Seq<char>)>,
    eager: Seq<(HoistKey, Expr)>,
    bundle: Bundle,
) -> Plan {
    match rewrite::first_of(existing, k) {
        Some(n) => Plan { bindings: p.bindings.push((k, n)), ..p },
        None => match rewrite::first_of(eager, k) {
            Some(callee) => {
                let name = names::binding_name(p.used, preferred(bundle, k), k.id);
                Plan {
                    bindings: p.bindings.push((k, name)),
                    declarations: p.declarations.push(declaration(name, callee, k.id)),
                    used: p.used.insert(name),
                }
            },
            None => p,
        },
    }
}

/// The plan for a list of keys.
pub open spec fn plan(
    keys: Seq<HoistKey>,
    used: Set<Seq<char>>,
    existing: Seq<(HoistKey, Seq<char>)>,
    eager: Seq<(HoistKey, Expr)>,
    bundle: Bundle,
) -> Plan
    decreases keys.len(),
{
    if keys.len() == 0 {
        Plan { bindings: Seq::empty(), declarations: Seq::empty(), used }
    } else {
        plan_step(
            plan(keys.drop_last(), used, existing, eager, bundle),
            keys.last(),
            existing,
            eager,
            bundle,
        )
    }
}

/// Whether a declaration introduces a name of `s`.
pub open spec fn declares_in(d: Stmt, s: Set<Seq<char>>) -> bool {
    match d {
        Stmt::Let { name, .. } => s.contains(name),
        _ => true,
    }
}

/// A new binding takes no name in use, and no two new bindings share a name.
pub proof fn lemma_plan_is_fresh(
    keys: Seq<HoistKey>,
    used: Set<Seq<char>>,
    existing: Seq<(HoistKey, Seq<char>)>,
    eager: Seq<(HoistKey, Expr)>,
    bundle: Bundle,
)
    requires
        used.finite(),
    ensures
        ({
            let p = plan(keys, used, existing, eager, bundle);
            &&& p.used.finite()
            &&& used.subset_of(p.used)
            &&& forall|i: int|
                0 <= i < p.declarations.len() ==> declares_in(#[trigger] p.declarations[i], p.used)
                    && !declares_in(p.declarations[i], used)
            &&& forall|i: int, j: int|
                0 <= i < j < p.declarations.len() ==> (#[trigger] p.declarations[i])->Let_name != (
                #[trigger] p.declarations[j])->Let_name
        }),
    decreases keys.len(),
{
    if keys.len() > 0 {
        let before = plan(keys.drop_last(), used, existing, eager, bundle);
        let k = keys.last();
        lemma_plan_is_fresh(keys.drop_last(), used, existing, eager, bundle);
        names::lemma_binding_name(before.used, preferred(bundle, k), k.id);
        let p = plan(keys, used, existing, eager, bundle);
        assert forall|i: int| 0 <= i < p.declarations.len() implies declares_in(
            #[trigger] p.declarations[i],
            p.used,
        ) && !declares_in(p.declarations[i], used) by {
            if i < before.declarations.len() {
                assert(p.declarations[i] == before.declarations[i]);
            }
        }
        assert forall|i: int, j: int| 0 <= i < j < p.declarations.len() implies (
        #[trigger] p.declarations[i])->Let_name != (#[trigger] p.declarations[j])->Let_name by {
            assert(p.declarations[i] == before.declarations[i]);
            if j < before.declarations.len() {
                assert(p.declarations[j] == before.declarations[j]);
            }
        }
    }
}

/// Different loads never share one binding: neither do loads of one module by different loaders.
/// The bindings that the factory already has are in use, and different loads have different ones.
pub proof fn lemma_bindings_stay_distinct(
    keys: Seq<HoistKey>,
    used: Set<Seq<char>>,
    existing: Seq<(HoistKey, Seq<char>)>,
    eager: Seq<(HoistKey, Expr)>,
    bundle: Bundle,
    i: int,
    j: int,
)
    requires
        used.finite(),
        keys.no_duplicates(),
        forall|a: int| 0 <= a < existing.len() ==> used.contains((#[trigger] existing[a]).1),
        forall|a: int, b: int|
            0 <= a < existing.len() && 0 <= b < existing.len() && (#[trigger] existing[a]).0 != (
            #[trigger] existing[b]).0 ==> existing[a].1 != existing[b].1,
        0 <= i < j < plan(keys, used, existing, eager, bundle).bindings.len(),
    ensures
        ({
            let p = plan(keys, used, existing, eager, bundle);
            p.bindings[i].0 != p.bindings[j].0 && p.bindings[i].1 != p.bindings[j].1
        }),
    decreases keys.len(),
{
    lemma_bindings_planned(keys, used, existing, eager, bundle);
    let p = plan(keys, used, existing, eager, bundle);
    let rest = keys.drop_last();
    let before = plan(rest, used, existing, eager, bundle);
    if j < before.bindings.len() {
        assert forall|a: int, b: int| 0 <= a < rest.len() && 0 <= b < rest.len() && a != b implies rest[a]
            != rest[b] by {
            assert(keys[a] != keys[b]);
        }
        lemma_bindings_stay_distinct(rest, used, existing, eager, bundle, i, j);
    } else {
        lemma_bindings_planned(rest, used, existing, eager, bundle);
        let k = keys.last();
        let x = before.bindings[i];
        assert(p.bindings[i] == x);
        assert(p.bindings[j].0 == k);
        assert(bound_by(before.used, used, existing, rest, x));
        assert(x.0 != k) by {
            let a = choose|a: int| 0 <= a < rest.len() && rest[a] == x.0;
            assert(keys[a] != keys[keys.len() - 1]);
        }
        lemma_plan_is_fresh(rest, used, existing, eager, bundle);
        names::lemma_binding_name(before.used, preferred(bundle, k), k.id);
        lemma_first_of(existing, k);
        lemma_first_of(existing, x.0);
    }
}

/// Whether a binding is of one of the keys and is the one that the factory has, or a new one.
spec fn bound_by(
    now: Set<Seq<char>>,
    used: Set<Seq<char>>,
    existing: Seq<(HoistKey, Seq<char>)>,
    keys: Seq<HoistKey>,
    x: (HoistKey, Seq<char>),
) -> bool {
    &&& keys.contains(x.0)
    &&& match rewrite::first_of(existing, x.0) {
        Some(n) => x.1 == n,
        None => now.contains(x.1) && !used.contains(x.1),
    }
}

proof fn lemma_bindings_planned(
    keys: Seq<HoistKey>,
    used: Set<Seq<char>>,
    existing: Seq<(HoistKey, Seq<char>)>,
    eager: Seq<(HoistKey, Expr)>,
    bundle: Bundle,
)
    requires
        used.finite(),
    ensures
        ({
            let p = plan(keys, used, existing, eager, bundle);
            &&& p.bindings.len() <= keys.len()
            &&& forall|a: int|
                0 <= a < p.bindings.len() ==> bound_by(
                    p.used,
                    used,
                    existing,
                    keys,
                    #[trigger] p.bindings[a],
                )
        }),
    decreases keys.len(),
{
    if keys.len() > 0 {
        let rest = keys.drop_last();
        let before = plan(rest, used, existing, eager, bundle);
        let p = plan(keys, used, existing, eager, bundle);
        let k = keys.last();
        lemma_bindings_planned(rest, used, existing, eager, bundle);
        lemma_plan_is_fresh(rest, used, existing, eager, bundle);
        names::lemma_binding_name(before.used, preferred(bundle, k), k.id);
        assert forall|a: int| 0 <= a < p.bindings.len() implies bound_by(
            p.used,
            used,
            existing,
            keys,
            #[trigger] p.bindings[a],
        ) by {
            assert(keys[keys.len() - 1] == k);
            if a < before.bindings.len() {
                let x = before.bindings[a];
                assert(bound_by(before.used, used, existing, rest, x));
                let b = choose|b: int| 0 <= b < rest.len() && rest[b] == x.0;
                assert(keys[b] == x.0);
            }
        }
    }
}

proof fn lemma_first_of(s: Seq<(HoistKey, Seq<char>)>, k: HoistKey)
    ensures
        rewrite::first_of(s, k) matches Some(n) ==> exists|a: int|
            0 <= a < s.len() && (#[trigger] s[a]).0 == k && s[a].1 == n,
    decreases s.len(),
{
    if s.len() > 0 {
        let t = s.drop_last();
        lemma_first_of(t, k);
        if let Some(n) = rewrite::first_of(t, k) {
            let a = choose|a: int| 0 <= a < t.len() && (#[trigger] t[a]).0 == k && t[a].1 == n;
            assert(s[a].0 == k && s[a].1 == n);
        } else {
            assert(s[s.len() - 1] == s.last());
        }
    }
}

struct Planned {
    bindings: Vec<(HoistKey, String)>,
    declarations: Vec<Statement>,
    used: NameSet,
}

impl Planned {
    closed spec fn view(&self) -> Plan {
        Plan {
            bindings: rewrite::named_keys(self.bindings@),
            declarations: model::stmts(self.declarations@),
            used: self.used@,
        }
    }
}

fn find_callee(v: &Vec<(HoistKey, Expression)>, k: HoistKey) -> (r: Option<&Expression>)
    ensures
        match r {
            Some(e) => rewrite::first_of(detect::loads(v@), k) == Some(e@),
            None => rewrite::first_of(detect::loads(v@), k) is None,
        },
{
    let ghost all = detect::loads(v@);
    let mut found: Option<&Expression> = None;
    let mut i: usize = 0;
    while i < v.len()
        invariant
            i <= v.len(),
            all == detect::loads(v@),
            match found {
                Some(e) => rewrite::first_of(all.take(i as int), k) == Some(e@),
                None => rewrite::first_of(all.take(i as int), k) is None,
            },
        decreases v.len() - i,
    {
        assert(all.take(i + 1).drop_last() =~= all.take(i as int));
        if found.is_none() && v[i].0 == k {
            found = Some(&v[i].1);
        }
        i += 1;
    }
    assert(all.take(all.len() as int) =~= all);
    found
}

fn declare(name: &String, callee: &Expression, id: u32) -> (r: Statement)
    ensures
        r@ == declaration(name@, callee@, id),
{
    let mut arguments: Vec<Expression> = Vec::new();
    arguments.push(Expression::Value(Value::Constant(Constant::Integer(id as i32))));
    assert(model::exprs(arguments@) =~= seq![
        Expr::Value(Val::Constant(Const::Integer(id as i32))),
    ]);
    Statement::Let {
        name: name.clone(),
        value: Expression::Call { callee: Box::new(callee.clone()), arguments },
        kind: VarKind::Const,
    }
}

fn make_plan(
    keys: &Vec<HoistKey>,
    used: NameSet,
    existing: &Vec<(HoistKey, String)>,
    eager: &Vec<(HoistKey, Expression)>,
    registry: &MetroRegistry,
) -> (r: Planned)
    ensures
        r@ == plan(
            keys@,
            used@,
            rewrite::named_keys(existing@),
            detect::loads(eager@),
            registry@,
        ),
{
    let ghost first = used@;
    let ghost old_names = rewrite::named_keys(existing@);
    let ghost loads = detect::loads(eager@);
    let mut p = Planned { bindings: Vec::new(), declarations: Vec::new(), used };
    assert(p@.bindings =~= Seq::empty());
    assert(p@.declarations =~= Seq::empty());
    let mut i: usize = 0;
    while i < keys.len()
        invariant
            i <= keys.len(),
            old_names == rewrite::named_keys(existing@),
            loads == detect::loads(eager@),
            p@ == plan(keys@.take(i as int), first, old_names, loads, registry@),
        decreases keys.len() - i,
    {
        assert(keys@.take(i + 1).drop_last() =~= keys@.take(i as int));
        let k: HoistKey = keys[i];
        let ghost before = p@;
        match find_name(existing, k) {
            Some(n) => {
                p.bindings.push((k, n.clone()));
                assert(p@.bindings =~= before.bindings.push((k, n@)));
            },
            None => if let Some(callee) = find_callee(eager, k) {
                let name = allocate_binding_name(preferred_name(registry, k), k.id, &mut p.used);
                let ghost text = name@;
                p.declarations.push(declare(&name, callee, k.id));
                assert(p@.declarations =~= before.declarations.push(
                    declaration(text, callee@, k.id),
                ));
                p.bindings.push((k, name));
                assert(p@.bindings =~= before.bindings.push((k, text)));
            },
        }
        i += 1;
    }
    assert(keys@.take(keys@.len() as int) =~= keys@);
    p
}

/// Whether a statement is the definition whose name a load was bound to.
pub open spec fn reused(
    s: Stmt,
    existing: Seq<(HoistKey, Seq<char>)>,
    aliases: Map<Seq<char>, LoaderKind>,
    deps: Seq<u32>,
) -> bool {
    match bound_load(s, aliases, deps) {
        Some(p) => rewrite::first_of(existing, p.0) == Some(p.1),
        None => false,
    }
}

fn is_reused_binding(
    s: &Statement,
    existing: &Vec<(HoistKey, String)>,
    aliases: &Dict<LoaderKind>,
    deps: &Vec<u32>,
) -> (r: bool)
    ensures
        r == reused(s@, rewrite::named_keys(existing@), aliases@, deps@),
{
    match find_bound_load(s, aliases, deps) {
        Some(p) => match find_name(existing, p.0) {
            Some(n) => text::same(n, p.1),
            None => false,
        },
        None => false,
    }
}

/// The factory's statements with their loads rewritten, but for the definitions reused.
pub open spec fn rewritten_factory(
    s: Seq<Stmt>,
    h: Hoisting,
    existing: Seq<(HoistKey, Seq<char>)>,
) -> Seq<Stmt> {
    s.map_values(
        |x: Stmt|
            if reused(x, existing, h.aliases, h.deps) {
                x
            } else {
                rewrite::rw_stmt(h, x)
            },
    )
}

/// A function's body after the rewrite. Lazy getters keep their loads.
pub open spec fn rewritten(
    id: u32,
    body: Seq<Stmt>,
    factory: u32,
    getters: Set<u32>,
    bindings: Seq<(HoistKey, Seq<char>)>,
    existing: Seq<(HoistKey, Seq<char>)>,
    deps: Seq<u32>,
) -> Seq<Stmt> {
    let aliases = detect::aliases_of(body);
    let h = Hoisting { bindings, aliases, deps };
    if getters.contains(id) || survey::handed_out(id, factory, body, aliases, deps) is Some {
        body
    } else if id == factory {
        rewritten_factory(body, h, existing)
    } else {
        rewrite::rw_stmts(h, body)
    }
}

fn rewrite_body(
    id: u32,
    body: &Vec<Statement>,
    factory: u32,
    getters: &Vec<u32>,
    bindings: &Vec<(HoistKey, String)>,
    existing: &Vec<(HoistKey, String)>,
    deps: &Vec<u32>,
) -> (r: Vec<Statement>)
    ensures
        model::stmts(r@) == rewritten(
            id,
            model::stmts(body@),
            factory,
            getters@.to_set(),
            rewrite::named_keys(bindings@),
            rewrite::named_keys(existing@),
            deps@,
        ),
{
    let aliases = loader_aliases(body);
    if is_lazy(getters, id) || find_handed_out(id, factory, body, &aliases, deps).is_some() {
        return clone_stmts(body);
    }
    let rw = LoaderRewriter { bindings, aliases: &aliases, deps };
    if id == factory {
        let ghost all = model::stmts(body@);
        let ghost named = rewrite::named_keys(existing@);
        let mut out: Vec<Statement> = Vec::new();
        let mut i: usize = 0;
        while i < body.len()
            invariant
                i <= body.len(),
                out.len() == i,
                all == model::stmts(body@),
                named == rewrite::named_keys(existing@),
                rw@.aliases == aliases@,
                rw@.deps == deps@,
                forall|k: int|
                    0 <= k < i ==> (#[trigger] out@[k])@ == rewritten_factory(all, rw@, named)[k],
            decreases body.len() - i,
        {
            assert(all[i as int] == body@[i as int]@);
            let s = &body[i];
            if is_reused_binding(s, existing, &aliases, deps) {
                out.push(s.clone());
            } else {
                out.push(rewrite_stmt(&rw, s));
            }
            i += 1;
        }
        assert(model::stmts(out@) =~= rewritten_factory(all, rw@, named));
        out
    } else {
        rewrite_stmts(&rw, body)
    }
}

/// The functions of a module that are getters.
pub open spec fn getter_set(prog: Map<u32, Seq<Stmt>>, members: Seq<u32>, factory: u32) -> Set<u32> {
    Set::new(|id: u32| survey::getter(prog, members, factory, id))
}

/// The loads that a factory already binds.
pub open spec fn existing_in(
    prog: Map<u32, Seq<Stmt>>,
    factory: u32,
    deps: Seq<u32>,
) -> Seq<(HoistKey, Seq<char>)> {
    if prog.dom().contains(factory) {
        bound_loads(prog[factory], detect::aliases_of(prog[factory]), deps)
    } else {
        Seq::empty()
    }
}

/// The bodies once the loads of the module's functions are rewritten.
pub open spec fn rewritten_program(
    prog: Map<u32, Seq<Stmt>>,
    members: Seq<u32>,
    factory: u32,
    getters: Set<u32>,
    bindings: Seq<(HoistKey, Seq<char>)>,
    existing: Seq<(HoistKey, Seq<char>)>,
    deps: Seq<u32>,
) -> Map<u32, Seq<Stmt>> {
    prog.map_entries(
        |id: u32, body: Seq<Stmt>|
            if members.contains(id) {
                rewritten(id, body, factory, getters, bindings, existing, deps)
            } else {
                body
            },
    )
}

/// The bodies once declarations stand at the top of a function.
pub open spec fn with_declarations(
    prog: Map<u32, Seq<Stmt>>,
    id: u32,
    declarations: Seq<Stmt>,
) -> Map<u32, Seq<Stmt>> {
    if prog.dom().contains(id) {
        prog.insert(id, declarations + prog[id])
    } else {
        prog
    }
}

/// The bodies once the eager loads of one module are hoisted.
pub open spec fn hoisted_module(
    prog: Map<u32, Seq<Stmt>>,
    factory: u32,
    members: Seq<u32>,
    deps: Seq<u32>,
    bundle: Bundle,
    params: Map<u32, Seq<Seq<char>>>,
) -> Map<u32, Seq<Stmt>> {
    let existing = existing_in(prog, factory, deps);
    let getters = getter_set(prog, members, factory);
    let v = survey::survey(members, factory, prog, params, getters, deps);
    let keys = wanted(v.eager, v.lazy);
    if keys.len() == 0 {
        prog
    } else {
        let p = plan(keys, v.used, existing, v.eager, bundle);
        with_declarations(
            rewritten_program(prog, members, factory, getters, p.bindings, existing, deps),
            factory,
            p.declarations,
        )
    }
}

fn hoist_one_module(
    factory: u32,
    members: &Vec<u32>,
    deps: &Vec<u32>,
    all_ir: &mut BTreeMap<u32, Vec<Statement>>,
    registry: &MetroRegistry,
    param_names: &BTreeMap<u32, Vec<String>>,
)
    requires
        members@.no_duplicates(),
    ensures
        survey::program(final(all_ir)@) == hoisted_module(
            survey::program(old(all_ir)@),
            factory,
            members@,
            deps@,
            registry@,
            survey::param_lists(param_names@),
        ),
{
    broadcast use vstd::std_specs::btree::group_btree_axioms;

    let ghost prog = survey::program(all_ir@);
    let existing: Vec<(HoistKey, String)> = match all_ir.get(&factory) {
        Some(body) => {
            assert(prog[factory] == model::stmts(body@));
            find_bound_loads(body, &loader_aliases(body), deps)
        },
        None => Vec::new(),
    };
    let ghost named = rewrite::named_keys(existing@);
    assert(named =~= existing_in(prog, factory, deps@));
    let getters = find_getters(members, all_ir, factory);
    assert(getters@.to_set() =~= getter_set(prog, members@, factory));
    let v = take_survey(members, factory, all_ir, param_names, &getters, deps);
    let keys = wanted_keys(&v.eager, &v.lazy);
    if keys.len() == 0 {
        return;
    }
    let p = make_plan(&keys, v.used, &existing, &v.eager, registry);
    let ghost bound = rewrite::named_keys(p.bindings@);
    let mut i: usize = 0;
    assert(prog =~= rewritten_program(
        prog,
        members@.take(0),
        factory,
        getters@.to_set(),
        bound,
        named,
        deps@,
    ));
    while i < members.len()
        invariant
            i <= members.len(),
            members@.no_duplicates(),
            named == rewrite::named_keys(existing@),
            bound == rewrite::named_keys(p.bindings@),
            survey::program(all_ir@) == rewritten_program(
                prog,
                members@.take(i as int),
                factory,
                getters@.to_set(),
                bound,
                named,
                deps@,
            ),
        decreases members.len() - i,
    {
        broadcast use vstd::std_specs::btree::group_btree_axioms;

        let id: u32 = members[i];
        let ghost before = survey::program(all_ir@);
        let ghost known = members@.take(i as int);
        let ghost next = members@.take(i + 1);
        assert(!known.contains(id));
        assert(next =~= known.push(id));
        assert forall|x: u32| next.contains(x) == (known.contains(x) || x == id) by {
            if known.contains(x) {
                let n = choose|n: int| 0 <= n < known.len() && known[n] == x;
                assert(next[n] == x);
            }
            assert(next[i as int] == id);
        }
        let changed: Option<Vec<Statement>> = match all_ir.get(&id) {
            Some(body) => {
                assert(before[id] == model::stmts(body@));
                assert(before[id] == prog[id]);
                Some(rewrite_body(id, body, factory, &getters, &p.bindings, &existing, deps))
            },
            None => None,
        };
        if let Some(body) = changed {
            let ghost b = model::stmts(body@);
            let ghost raw = all_ir@;
            all_ir.insert(id, body);
            assert(survey::program(all_ir@) =~= before.insert(id, b));
        }
        i += 1;
        assert(survey::program(all_ir@) =~= rewritten_program(
            prog,
            next,
            factory,
            getters@.to_set(),
            bound,
            named,
            deps@,
        ));
    }
    assert(members@.take(members@.len() as int) =~= members@);
    let ghost before = survey::program(all_ir@);
    let mut top: Vec<Statement> = p.declarations;
    let ghost declared = model::stmts(top@);
    let rest: Option<Vec<Statement>> = match all_ir.get(&factory) {
        Some(body) => Some(clone_stmts(body)),
        None => None,
    };
    if let Some(rest) = rest {
        let mut rest = rest;
        let ghost r = model::stmts(rest@);
        top.append(&mut rest);
        assert(model::stmts(top@) =~= declared + r);
        all_ir.insert(factory, top);
        assert(survey::program(all_ir@) =~= before.insert(factory, declared + r));
    }
}

/// The modules that a factory's module depends on.
pub open spec fn deps_of(bundle: Bundle, factory: u32) -> Seq<u32> {
    if bundle.factories.dom().contains(factory) && bundle.deps.dom().contains(
        bundle.factories[factory],
    ) {
        bundle.deps[bundle.factories[factory]]
    } else {
        Seq::empty()
    }
}

/// The bodies once the loads of every module whose factory is below `n` are hoisted, in order of
/// the factories.
pub open spec fn hoisted_below(
    prog: Map<u32, Seq<Stmt>>,
    n: nat,
    bundle: Bundle,
    children: Map<u32, Seq<u32>>,
    params: Map<u32, Seq<Seq<char>>>,
) -> Map<u32, Seq<Stmt>>
    decreases n,
{
    if n == 0 {
        prog
    } else {
        let before = hoisted_below(prog, (n - 1) as nat, bundle, children, params);
        let factory = (n - 1) as u32;
        if bundle.factories.dom().contains(factory) {
            hoisted_module(
                before,
                factory,
                members::members(factory, children, bundle.factories.dom()),
                deps_of(bundle, factory),
                bundle,
                params,
            )
        } else {
            before
        }
    }
}

/// The bodies once the loads of every module are hoisted.
pub open spec fn hoisted(
    prog: Map<u32, Seq<Stmt>>,
    bundle: Bundle,
    children: Map<u32, Seq<u32>>,
    params: Map<u32, Seq<Seq<char>>>,
) -> Map<u32, Seq<Stmt>> {
    hoisted_below(prog, 0x1_0000_0000, bundle, children, params)
}

/// Functions that are no factories change nothing.
proof fn lemma_skips(
    prog: Map<u32, Seq<Stmt>>,
    a: nat,
    b: nat,
    bundle: Bundle,
    children: Map<u32, Seq<u32>>,
    params: Map<u32, Seq<Seq<char>>>,
)
    requires
        a <= b <= 0x1_0000_0000,
        forall|x: u32| a <= x < b ==> !#[trigger] bundle.factories.dom().contains(x),
    ensures
        hoisted_below(prog, a, bundle, children, params) == hoisted_below(
            prog,
            b,
            bundle,
            children,
            params,
        ),
    decreases b - a,
{
    if a < b {
        lemma_skips(prog, a, (b - 1) as nat, bundle, children, params);
    }
}

/// Hoists the eager loads of every module into bindings at the top of its factory, and rewrites
/// the loads to those bindings. Modules that a lazy getter loads are left alone.
pub fn hoist_module_loaders(
    all_ir: &mut BTreeMap<u32, Vec<Statement>>,
    registry: &MetroRegistry,
    child_functions: &BTreeMap<u32, Vec<u32>>,
    param_names: &BTreeMap<u32, Vec<String>>,
)
    ensures
        survey::program(final(all_ir)@) == hoisted(
            survey::program(old(all_ir)@),
            registry@,
            members::child_lists(child_functions@),
            survey::param_lists(param_names@),
        ),
{
    let ghost prog = survey::program(all_ir@);
    let ghost bundle = registry@;
    let ghost kids = members::child_lists(child_functions@);
    let ghost params = survey::param_lists(param_names@);
    let factories = keys_in_order(&registry.function_to_module);
    let ghost mut n: nat = 0;
    let mut i: usize = 0;
    while i < factories.len()
        invariant
            i <= factories.len(),
            n <= 0x1_0000_0000,
            bundle == registry@,
            kids == members::child_lists(child_functions@),
            params == survey::param_lists(param_names@),
            forall|k: u32| #[trigger]
                factories@.contains(k) <==> registry.function_to_module@.dom().contains(k),
            forall|i: int, j: int| 0 <= i < j < factories@.len() ==> factories@[i] < factories@[j],
            n == (if i == 0 {
                0
            } else {
                factories@[i - 1] + 1
            }),
            survey::program(all_ir@) == hoisted_below(prog, n, bundle, kids, params),
        decreases factories.len() - i,
    {
        broadcast use vstd::std_specs::btree::group_btree_axioms;

        let factory: u32 = factories[i];
        assert(factories@.contains(factory));
        proof {
            assert forall|x: u32| n <= x < factory implies
                !#[trigger] bundle.factories.dom().contains(x) by {
                if bundle.factories.dom().contains(x) {
                    assert(factories@.contains(x));
                    let j = choose|j: int| 0 <= j < factories@.len() && factories@[j] == x;
                    if j < i {
                        assert(j == i - 1 || factories@[j] < factories@[i - 1]);
                    }
                }
            }
            lemma_skips(prog, n, factory as nat, bundle, kids, params);
            members::lemma_members(factory, kids, bundle.factories.dom());
        }
        let none: Vec<u32> = Vec::new();
        let deps: &Vec<u32> = match registry.get_module_for_function(factory) {
            Some(m) => &m.dependencies,
            None => &none,
        };
        assert(deps@ =~= deps_of(bundle, factory));
        let group = descendants(factory, child_functions, &registry.function_to_module);
        hoist_one_module(factory, &group, deps, all_ir, registry, param_names);
        proof {
            n = (factory + 1) as nat;
        }
        i += 1;
    }
    proof {
        assert forall|x: u32| n <= x < 0x1_0000_0000 implies
            !#[trigger] bundle.factories.dom().contains(x) by {
            if bundle.factories.dom().contains(x) {
                assert(factories@.contains(x));
                let j = choose|j: int| 0 <= j < factories@.len() && factories@[j] == x;
                assert(j == i - 1 || factories@[j] < factories@[i - 1]);
            }
        }
        lemma_skips(prog, n, 0x1_0000_0000, bundle, kids, params);
    }
}

} // verus!
