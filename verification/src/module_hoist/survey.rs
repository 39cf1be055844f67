//! What the functions of a module load, and the names they use.

use super::detect;
use super::detect::{loader_aliases, loader_uses};
use super::kinds;
use super::kinds::{HoistKey, LoaderKind};
use super::lazy;
use super::lazy::{collect_descriptor_getter_ids, lazy_getter_ids};
use crate::dict::{Dict, NameSet};
use crate::ir::model;
use crate::ir::model::{Expr, Stmt};
use crate::ir::nested;
use crate::ir::occurs;
use crate::ir::occurs::{Atom, Occurrence};
use crate::ir::visit;
use crate::ir::{Expression, Statement};
use std::collections::BTreeMap;
use vstd::prelude::*;

verus! {

/// The model of the bodies of a program's functions.
pub open spec fn program(m: Map<u32, Vec<Statement>>) -> Map<u32, Seq<Stmt>> {
    m.map_values(|v: Vec<Statement>| model::stmts(v@))
}

/// The model of the parameter names of a program's functions.
pub open spec fn param_lists(m: Map<u32, Vec<String>>) -> Map<u32, Seq<Seq<char>>> {
    m.map_values(|v: Vec<String>| model::texts(v@))
}

/// The names that occurrences bind or write.
pub open spec fn bound_names(s: Seq<Atom>) -> Set<Seq<char>>
    decreases s.len(),
{
    if s.len() == 0 {
        Set::empty()
    } else {
        let before = bound_names(s.drop_last());
        match s.last() {
            Atom::Declare(n) => before.insert(n),
            Atom::LoopVar(n) => before.insert(n),
            Atom::CatchParam(n) => before.insert(n),
            Atom::WriteVariable(n) => before.insert(n),
            _ => before,
        }
    }
}

/// The names of the classes among statements.
pub open spec fn class_names(s: Seq<Stmt>) -> Set<Seq<char>>
    decreases s.len(),
{
    if s.len() == 0 {
        Set::empty()
    } else {
        let before = class_names(s.drop_last());
        match s.last() {
            Stmt::Class { name, .. } => before.insert(name),
            _ => before,
        }
    }
}

/// The names that a body binds or writes.
pub open spec fn local_names(body: Seq<Stmt>) -> Set<Seq<char>> {
    bound_names(occurs::stmts_atoms(body)).union(class_names(nested::flat(body)))
}

/// The names given, without empty ones.
pub open spec fn given_names(s: Seq<Seq<char>>) -> Set<Seq<char>>
    decreases s.len(),
{
    if s.len() == 0 {
        Set::empty()
    } else if s.last().len() == 0 {
        given_names(s.drop_last())
    } else {
        given_names(s.drop_last()).insert(s.last())
    }
}

/// The modules of a list of loads.
pub open spec fn load_ids(s: Seq<(HoistKey, Expr)>) -> Set<u32>
    decreases s.len(),
{
    if s.len() == 0 {
        Set::empty()
    } else {
        load_ids(s.drop_last()).insert(s.last().0.id)
    }
}

/// Whether a function is the `get` of a descriptor in one of the module's functions. The factory
/// never is.
pub open spec fn getter(
    prog: Map<u32, Seq<Stmt>>,
    members: Seq<u32>,
    factory: u32,
    id: u32,
) -> bool {
    id != factory && exists|i: int|
        0 <= i < members.len() && prog.dom().contains(#[trigger] members[i]) && lazy::getter_in(
            prog[members[i]],
            id,
        )
}

/// What is known of the functions looked at.
#[verifier::ext_equal]
pub struct Survey {
    /// Names that a new binding must not take.
    pub used: Set<Seq<char>>,
    /// Modules that are loaded lazily.
    pub lazy: Set<u32>,
    /// The eager loads, in order, each with its callee.
    pub eager: Seq<(HoistKey, Expr)>,
}

/// The names reserved from the start.
pub open spec fn reserved_names() -> Set<Seq<char>> {
    Set::empty().insert("require"@).insert("importDefault"@).insert("importAll"@).insert(
        "module"@,
    ).insert("exports"@).insert("global"@).insert("dependencyMap"@).insert("default"@).insert(
        "undefined"@,
    ).insert("arguments"@).insert("eval"@)
}

/// The module that a function loads where its body has the shape of a lazy getter. A factory is
/// never a getter.
pub open spec fn handed_out(
    id: u32,
    factory: u32,
    body: Seq<Stmt>,
    aliases: Map<Seq<char>, LoaderKind>,
    deps: Seq<u32>,
) -> Option<u32> {
    if id == factory {
        None
    } else {
        lazy::lazy_id(body, aliases, deps)
    }
}

/// The survey with one more function.
pub open spec fn survey_step(
    v: Survey,
    id: u32,
    factory: u32,
    prog: Map<u32, Seq<Stmt>>,
    params: Map<u32, Seq<Seq<char>>>,
    getters: Set<u32>,
    deps: Seq<u32>,
) -> Survey {
    let used = if params.dom().contains(id) {
        v.used.union(given_names(params[id]))
    } else {
        v.used
    };
    if !prog.dom().contains(id) {
        Survey { used, ..v }
    } else {
        let body = prog[id];
        let aliases = detect::aliases_of(body);
        let found = detect::loads_in(visit::stmts_visits(body), aliases, deps);
        let used = used.union(local_names(body));
        if getters.contains(id) {
            Survey { used, lazy: v.lazy.union(load_ids(found)), ..v }
        } else {
            match handed_out(id, factory, body, aliases, deps) {
                Some(x) => Survey { used, lazy: v.lazy.insert(x), ..v },
                None => Survey { used, eager: v.eager + found, ..v },
            }
        }
    }
}

/// The survey of a module's functions.
pub open spec fn survey(
    members: Seq<u32>,
    factory: u32,
    prog: Map<u32, Seq<Stmt>>,
    params: Map<u32, Seq<Seq<char>>>,
    getters: Set<u32>,
    deps: Seq<u32>,
) -> Survey
    decreases members.len(),
{
    if members.len() == 0 {
        Survey { used: reserved_names(), lazy: Set::empty(), eager: Seq::empty() }
    } else {
        survey_step(
            survey(members.drop_last(), factory, prog, params, getters, deps),
            members.last(),
            factory,
            prog,
            params,
            getters,
            deps,
        )
    }
}

proof fn lemma_bound_finite(s: Seq<Atom>)
    ensures
        bound_names(s).finite(),
    decreases s.len(),
{
    if s.len() > 0 {
        lemma_bound_finite(s.drop_last());
    }
}

proof fn lemma_classes_finite(s: Seq<Stmt>)
    ensures
        class_names(s).finite(),
    decreases s.len(),
{
    if s.len() > 0 {
        lemma_classes_finite(s.drop_last());
    }
}

proof fn lemma_given_finite(s: Seq<Seq<char>>)
    ensures
        given_names(s).finite(),
    decreases s.len(),
{
    if s.len() > 0 {
        lemma_given_finite(s.drop_last());
    }
}

/// Finitely many names are in use.
pub proof fn lemma_used_finite(
    members: Seq<u32>,
    factory: u32,
    prog: Map<u32, Seq<Stmt>>,
    params: Map<u32, Seq<Seq<char>>>,
    getters: Set<u32>,
    deps: Seq<u32>,
)
    ensures
        survey(members, factory, prog, params, getters, deps).used.finite(),
    decreases members.len(),
{
    if members.len() > 0 {
        lemma_used_finite(members.drop_last(), factory, prog, params, getters, deps);
        let id = members.last();
        if params.dom().contains(id) {
            lemma_given_finite(params[id]);
        }
        if prog.dom().contains(id) {
            lemma_bound_finite(occurs::stmts_atoms(prog[id]));
            lemma_classes_finite(nested::flat(prog[id]));
        }
    }
}

/// Adds the names that a body binds or writes.
fn collect_existing_binding_names(stmts: &Vec<Statement>, out: &mut NameSet)
    ensures
        final(out)@ == old(out)@.union(local_names(model::stmts(stmts@))),
{
    let ghost first = out@;
    collect_bound_names(stmts, out);
    let v = nested::of_stmts(stmts);
    let ghost all = nested::seen(v@);
    let ghost bound = out@;
    let mut i: usize = 0;
    assert(bound =~= bound.union(class_names(all.take(0))));
    while i < v.len()
        invariant
            i <= v.len(),
            all == nested::seen(v@),
            out@ == bound.union(class_names(all.take(i as int))),
        decreases v.len() - i,
    {
        assert(all.take(i + 1).drop_last() =~= all.take(i as int));
        assert(all[i as int] == v@[i as int]@);
        if let Statement::Class { name, .. } = v[i] {
            out.insert(name);
        }
        i += 1;
        assert(out@ =~= bound.union(class_names(all.take(i as int))));
    }
    assert(all.take(all.len() as int) =~= all);
    assert(out@ =~= first.union(local_names(model::stmts(stmts@))));
}

fn collect_bound_names(stmts: &Vec<Statement>, out: &mut NameSet)
    ensures
        final(out)@ == old(out)@.union(bound_names(occurs::stmts_atoms(model::stmts(stmts@)))),
{
    let v = occurs::of_stmts(stmts);
    let ghost all = occurs::occs(v@);
    let ghost first = out@;
    let mut i: usize = 0;
    assert(first =~= first.union(bound_names(all.take(0))));
    while i < v.len()
        invariant
            i <= v.len(),
            all == occurs::occs(v@),
            out@ == first.union(bound_names(all.take(i as int))),
        decreases v.len() - i,
    {
        assert(all.take(i + 1).drop_last() =~= all.take(i as int));
        assert(all[i as int] == v@[i as int]@);
        let ghost before = out@;
        match &v[i] {
            Occurrence::Declare(n) | Occurrence::LoopVar(n) | Occurrence::CatchParam(
                n,
            ) | Occurrence::WriteVariable(n) => {
                out.insert(n);
            },
            _ => {},
        }
        i += 1;
        assert(out@ =~= first.union(bound_names(all.take(i as int))));
    }
    assert(all.take(all.len() as int) =~= all);
}

fn collect_params(params: &Vec<String>, out: &mut NameSet)
    ensures
        final(out)@ == old(out)@.union(given_names(model::texts(params@))),
{
    let ghost all = model::texts(params@);
    let ghost first = out@;
    let mut i: usize = 0;
    assert(first =~= first.union(given_names(all.take(0))));
    while i < params.len()
        invariant
            i <= params.len(),
            all == model::texts(params@),
            out@ == first.union(given_names(all.take(i as int))),
        decreases params.len() - i,
    {
        assert(all.take(i + 1).drop_last() =~= all.take(i as int));
        assert(all[i as int] == params@[i as int]@);
        if !params[i].as_str().is_empty() {
            out.insert(&params[i]);
        }
        i += 1;
        assert(out@ =~= first.union(given_names(all.take(i as int))));
    }
    assert(all.take(all.len() as int) =~= all);
}

/// The functions of a module that are the `get` of a descriptor.
pub fn find_getters(
    members: &Vec<u32>,
    all_ir: &BTreeMap<u32, Vec<Statement>>,
    factory: u32,
) -> (r: Vec<u32>)
    ensures
        forall|id: u32| #[trigger]
            r@.contains(id) <==> getter(program(all_ir@), members@, factory, id),
{
    broadcast use vstd::std_specs::btree::group_btree_axioms;

    let ghost prog = program(all_ir@);
    let mut out: Vec<u32> = Vec::new();
    let mut i: usize = 0;
    while i < members.len()
        invariant
            i <= members.len(),
            prog == program(all_ir@),
            forall|id: u32| #[trigger]
                out@.contains(id) <==> id != factory && exists|k: int|
                    0 <= k < i && prog.dom().contains(#[trigger] members@[k]) && lazy::getter_in(
                        prog[members@[k]],
                        id,
                    ),
        decreases members.len() - i,
    {
        let m: u32 = members[i];
        let ghost first = out@;
        if let Some(stmts) = all_ir.get(&m) {
            assert(prog[m] == model::stmts(stmts@));
            let ids = collect_descriptor_getter_ids(stmts);
            let mut j: usize = 0;
            while j < ids.len()
                invariant
                    j <= ids.len(),
                    forall|id: u32| #[trigger]
                        out@.contains(id) <==> first.contains(id) || (id != factory && exists|k: int|
                            0 <= k < j && #[trigger] ids@[k] == id),
                decreases ids.len() - j,
            {
                let ghost before = out@;
                if ids[j] != factory {
                    out.push(ids[j]);
                    assert forall|id: u32| #[trigger]
                        out@.contains(id) <==> before.contains(id) || id == ids@[j as int] by {
                        if before.contains(id) {
                            let n = choose|n: int| 0 <= n < before.len() && before[n] == id;
                            assert(out@[n] == id);
                        }
                        if id == ids@[j as int] {
                            assert(out@[before.len() as int] == id);
                        }
                    }
                }
                j += 1;
            }
            assert forall|id: u32| #[trigger]
                out@.contains(id) <==> first.contains(id) || (id != factory && lazy::getter_in(
                    prog[m],
                    id,
                )) by {
                if lazy::getter_in(prog[m], id) {
                    assert(ids@.contains(id));
                }
                if exists|k: int| 0 <= k < ids@.len() && #[trigger] ids@[k] == id {
                    assert(ids@.contains(id));
                }
            }
            assert(prog.dom().contains(members@[i as int]));
        } else {
            assert(!prog.dom().contains(members@[i as int]));
        }
        i += 1;
    }
    out
}

fn seed_names() -> (r: NameSet)
    ensures
        r@ == reserved_names(),
{
    let mut used = NameSet::new();
    used.insert("require");
    used.insert("importDefault");
    used.insert("importAll");
    used.insert("module");
    used.insert("exports");
    used.insert("global");
    used.insert("dependencyMap");
    used.insert("default");
    used.insert("undefined");
    used.insert("arguments");
    used.insert("eval");
    used
}

/// Exactly the reserved names are in use from the start.
pub proof fn lemma_reserved_names(n: Seq<char>)
    ensures
        reserved_names().contains(n) == kinds::reserved(n),
{
}

/// A survey in executable form.
pub struct Findings {
    pub used: NameSet,
    pub lazy: Vec<u32>,
    pub eager: Vec<(HoistKey, Expression)>,
}

impl Findings {
    pub open spec fn view(&self) -> Survey {
        Survey {
            used: self.used@,
            lazy: self.lazy@.to_set(),
            eager: detect::loads(self.eager@),
        }
    }
}

fn add_id(v: &mut Vec<u32>, id: u32)
    ensures
        final(v)@.to_set() == old(v)@.to_set().insert(id),
{
    let ghost before = v@;
    v.push(id);
    assert forall|x: u32| #[trigger]
        v@.to_set().contains(x) == before.to_set().insert(id).contains(x) by {
        if before.contains(x) {
            let n = choose|n: int| 0 <= n < before.len() && before[n] == x;
            assert(v@[n] == x);
        }
        if x == id {
            assert(v@[before.len() as int] == x);
        }
    }
    assert(v@.to_set() =~= before.to_set().insert(id));
}

fn add_ids(v: &mut Vec<u32>, found: &Vec<(HoistKey, Expression)>)
    ensures
        final(v)@.to_set() == old(v)@.to_set().union(load_ids(detect::loads(found@))),
{
    let ghost all = detect::loads(found@);
    let ghost first = v@.to_set();
    let mut i: usize = 0;
    assert(first =~= first.union(load_ids(all.take(0))));
    while i < found.len()
        invariant
            i <= found.len(),
            all == detect::loads(found@),
            v@.to_set() == first.union(load_ids(all.take(i as int))),
        decreases found.len() - i,
    {
        assert(all.take(i + 1).drop_last() =~= all.take(i as int));
        assert(all[i as int] == (found@[i as int].0, found@[i as int].1@));
        add_id(v, found[i].0.id);
        i += 1;
        assert(v@.to_set() =~= first.union(load_ids(all.take(i as int))));
    }
    assert(all.take(all.len() as int) =~= all);
}

fn contains_id(v: &Vec<u32>, x: u32) -> (r: bool)
    ensures
        r == v@.contains(x),
{
    let mut i: usize = 0;
    while i < v.len()
        invariant
            i <= v.len(),
            forall|k: int| 0 <= k < i ==> v@[k] != x,
        decreases v.len() - i,
    {
        if v[i] == x {
            return true;
        }
        i += 1;
    }
    false
}

/// The module that a function's body hands out and does nothing else with.
pub fn find_handed_out(
    id: u32,
    factory: u32,
    stmts: &Vec<Statement>,
    aliases: &Dict<LoaderKind>,
    deps: &Vec<u32>,
) -> (r: Option<u32>)
    ensures
        r == handed_out(id, factory, model::stmts(stmts@), aliases@, deps@),
{
    if id == factory {
        return None;
    }
    let found = lazy_getter_ids(stmts, aliases, deps);
    if found.len() > 0 {
        Some(found[0])
    } else {
        None
    }
}

fn survey_function(
    v: &mut Findings,
    id: u32,
    factory: u32,
    all_ir: &BTreeMap<u32, Vec<Statement>>,
    params: &BTreeMap<u32, Vec<String>>,
    getters: &Vec<u32>,
    deps: &Vec<u32>,
)
    ensures
        final(v)@ == survey_step(
            old(v)@,
            id,
            factory,
            program(all_ir@),
            param_lists(params@),
            getters@.to_set(),
            deps@,
        ),
{
    broadcast use vstd::std_specs::btree::group_btree_axioms;

    let ghost first = v@;
    if let Some(ps) = params.get(&id) {
        assert(param_lists(params@)[id] == model::texts(ps@));
        collect_params(ps, &mut v.used);
    }
    if let Some(stmts) = all_ir.get(&id) {
        assert(program(all_ir@)[id] == model::stmts(stmts@));
        collect_existing_binding_names(stmts, &mut v.used);
        let aliases = loader_aliases(stmts);
        let found = loader_uses(stmts, &aliases, deps);
        if contains_id(getters, id) {
            add_ids(&mut v.lazy, &found);
        } else {
            if let Some(x) = find_handed_out(id, factory, stmts, &aliases, deps) {
                add_id(&mut v.lazy, x);
            } else {
                let ghost before = v.eager@;
                let mut found = found;
                let ghost all = found@;
                v.eager.append(&mut found);
                assert(detect::loads(v.eager@) =~= detect::loads(before) + detect::loads(all));
            }
        }
    }
}

/// Surveys the functions of a module.
pub fn take_survey(
    members: &Vec<u32>,
    factory: u32,
    all_ir: &BTreeMap<u32, Vec<Statement>>,
    params: &BTreeMap<u32, Vec<String>>,
    getters: &Vec<u32>,
    deps: &Vec<u32>,
) -> (r: Findings)
    ensures
        r@ == survey(
            members@,
            factory,
            program(all_ir@),
            param_lists(params@),
            getters@.to_set(),
            deps@,
        ),
{
    let ghost prog = program(all_ir@);
    let ghost ps = param_lists(params@);
    let mut v = Findings { used: seed_names(), lazy: Vec::new(), eager: Vec::new() };
    assert(v@.lazy =~= Set::empty());
    assert(v@.eager =~= Seq::empty());
    let mut i: usize = 0;
    while i < members.len()
        invariant
            i <= members.len(),
            prog == program(all_ir@),
            ps == param_lists(params@),
            v@ == survey(members@.take(i as int), factory, prog, ps, getters@.to_set(), deps@),
        decreases members.len() - i,
    {
        assert(members@.take(i + 1).drop_last() =~= members@.take(i as int));
        survey_function(&mut v, members[i], factory, all_ir, params, getters, deps);
        i += 1;
    }
    assert(members@.take(members@.len() as int) =~= members@);
    v
}

} // verus!
