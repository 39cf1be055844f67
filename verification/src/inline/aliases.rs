//! Eliminates aliases of bindings that never change.

use super::cleanup;
use super::cleanup::cleanup_noise;
use super::inline_named;
use super::inline_named::{count_defs, is_inlinable_name, MAX_ALIAS_PASSES};
use crate::dict::Dict;
use crate::ir::bindings;
use crate::ir::bindings::as_binding;
use crate::ir::model;
use crate::ir::model::{Expr, Stmt, Val};
use crate::ir::nested;
use crate::ir::occurs;
use crate::ir::occurs::{Atom, Occurrence};
use crate::ir::renaming;
use crate::ir::renaming::rename_stmts;
use crate::ir::{Expression, Statement, Value};
use crate::text;
use vstd::prelude::*;

verus! {

/// A definition `x = v` of a temporary that is assigned nowhere else, where `v` is never assigned.
pub open spec fn alias(s: Stmt, atoms: Seq<Atom>) -> Option<(Seq<char>, Seq<char>)> {
    match bindings::binding(s) {
        Some(b) => match b.1 {
            Expr::Value(Val::Variable(v)) => if v != b.0 && inline_named::inlinable(b.0)
                && inline_named::defs_of(atoms, b.0) == 1 && inline_named::defs_of(atoms, v) == 0 {
                Some((b.0, v))
            } else {
                None
            },
            _ => None,
        },
        None => None,
    }
}

/// Whether a list of renames has one for a name.
pub open spec fn renamed(l: Seq<(Seq<char>, Seq<char>)>, n: Seq<char>) -> bool
    decreases l.len(),
{
    l.len() > 0 && (l.last().0 == n || renamed(l.drop_last(), n))
}

/// The aliases among the statements, the first of each name.
pub open spec fn aliases_in(s: Seq<Stmt>, atoms: Seq<Atom>) -> Seq<(Seq<char>, Seq<char>)>
    decreases s.len(),
{
    if s.len() == 0 {
        Seq::empty()
    } else {
        let before = aliases_in(s.drop_last(), atoms);
        match alias(s.last(), atoms) {
            Some(p) => if renamed(before, p.0) {
                before
            } else {
                before.push(p)
            },
            None => before,
        }
    }
}

/// The map that a list of renames is.
pub open spec fn rename_map(l: Seq<(Seq<char>, Seq<char>)>) -> Map<Seq<char>, Seq<char>>
    decreases l.len(),
{
    if l.len() == 0 {
        Map::empty()
    } else {
        rename_map(l.drop_last()).insert(l.last().0, l.last().1)
    }
}

/// The end of a chain of renames, at most 33 steps away.
pub open spec fn chased(m: Map<Seq<char>, Seq<char>>, n: Seq<char>, hops: nat) -> Seq<char>
    decreases 33 - hops,
{
    if m.dom().contains(n) && m[n] != n && hops <= 32 {
        chased(m, m[n], hops + 1)
    } else {
        n
    }
}

/// The renames with each chain collapsed.
pub open spec fn collapsed(l: Seq<(Seq<char>, Seq<char>)>) -> Seq<(Seq<char>, Seq<char>)> {
    l.map_values(|p: (Seq<char>, Seq<char>)| (p.0, chased(rename_map(l), p.1, 0)))
}

/// The aliases of a function.
pub open spec fn aliases_of(s: Seq<Stmt>) -> Seq<(Seq<char>, Seq<char>)> {
    aliases_in(nested::flat(s), occurs::stmts_atoms(s))
}

/// A function with its aliases replaced by what they stand for.
pub open spec fn without_aliases(s: Seq<Stmt>) -> Seq<Stmt> {
    cleanup::cleaned(renaming::ren_stmts(rename_map(collapsed(aliases_of(s))), s))
}

/// At most `n` rounds of alias elimination; it ends when there are no aliases.
pub open spec fn alias_rounds(s: Seq<Stmt>, n: nat) -> Seq<Stmt>
    decreases n,
{
    if n == 0 || aliases_of(s).len() == 0 {
        s
    } else {
        alias_rounds(without_aliases(s), (n - 1) as nat)
    }
}

/// The target of an alias is no alias itself, so a chain has a single step.
pub proof fn lemma_alias_targets_stay(s: Seq<Stmt>, atoms: Seq<Atom>, i: int)
    requires
        0 <= i < aliases_in(s, atoms).len(),
    ensures
        inline_named::defs_of(atoms, aliases_in(s, atoms)[i].1) == 0,
        inline_named::defs_of(atoms, aliases_in(s, atoms)[i].0) == 1,
    decreases s.len(),
{
    if s.len() > 0 {
        let before = aliases_in(s.drop_last(), atoms);
        if i < before.len() {
            lemma_alias_targets_stay(s.drop_last(), atoms, i);
        }
    }
}

pub open spec fn pairs(s: Seq<(String, String)>) -> Seq<(Seq<char>, Seq<char>)> {
    s.map_values(|p: (String, String)| (p.0@, p.1@))
}

fn find_alias<'a>(s: &'a Statement, v: &Vec<Occurrence>) -> (r: Option<(&'a String, &'a String)>)
    ensures
        match r {
            Some(p) => alias(s@, occurs::occs(v@)) == Some((p.0@, p.1@)),
            None => alias(s@, occurs::occs(v@)) is None,
        },
{
    match as_binding(s) {
        Some((n, e)) => match e {
            Expression::Value(Value::Variable(x)) => if !text::same(x, n) && is_inlinable_name(n)
                && count_defs(v, n) == 1 && count_defs(v, x) == 0 {
                Some((n, x))
            } else {
                None
            },
            _ => None,
        },
        None => None,
    }
}

fn is_renamed(l: &Vec<(String, String)>, n: &str) -> (r: bool)
    ensures
        r == renamed(pairs(l@), n@),
{
    let ghost all = pairs(l@);
    let mut found: bool = false;
    let mut i: usize = 0;
    while i < l.len()
        invariant
            i <= l.len(),
            all == pairs(l@),
            found == renamed(all.take(i as int), n@),
        decreases l.len() - i,
    {
        assert(all.take(i + 1).drop_last() =~= all.take(i as int));
        if text::same(&l[i].0, n) {
            found = true;
        }
        i += 1;
    }
    assert(all.take(all.len() as int) =~= all);
    found
}

fn collect_immutable_aliases(stmts: &Vec<Statement>) -> (r: Vec<(String, String)>)
    ensures
        pairs(r@) == aliases_of(model::stmts(stmts@)),
{
    let v = occurs::of_stmts(stmts);
    let list = nested::of_stmts(stmts);
    let ghost all = nested::seen(list@);
    let ghost atoms = occurs::occs(v@);
    let mut out: Vec<(String, String)> = Vec::new();
    let mut i: usize = 0;
    assert(pairs(out@) =~= Seq::empty());
    while i < list.len()
        invariant
            i <= list.len(),
            all == nested::seen(list@),
            atoms == occurs::occs(v@),
            pairs(out@) == aliases_in(all.take(i as int), atoms),
        decreases list.len() - i,
    {
        assert(all.take(i + 1).drop_last() =~= all.take(i as int));
        let s = list[i];
        assert(all[i as int] == s@);
        let ghost before = out@;
        if let Some((n, x)) = find_alias(s, &v) {
            if !is_renamed(&out, n) {
                out.push((n.clone(), x.clone()));
                assert(pairs(out@) =~= pairs(before).push((n@, x@)));
            }
        }
        i += 1;
    }
    assert(all.take(all.len() as int) =~= all);
    out
}

fn make_dict(l: &Vec<(String, String)>) -> (r: Dict<String>)
    ensures
        renaming::names_of(r@) == rename_map(pairs(l@)),
{
    let ghost all = pairs(l@);
    let mut d: Dict<String> = Dict::new();
    let mut i: usize = 0;
    assert(renaming::names_of(d@) =~= Map::empty());
    while i < l.len()
        invariant
            i <= l.len(),
            all == pairs(l@),
            renaming::names_of(d@) == rename_map(all.take(i as int)),
        decreases l.len() - i,
    {
        assert(all.take(i + 1).drop_last() =~= all.take(i as int));
        let ghost before = d@;
        d.insert(&l[i].0, l[i].1.clone());
        assert(renaming::names_of(d@) =~= renaming::names_of(before).insert(
            all[i as int].0,
            all[i as int].1,
        ));
        i += 1;
    }
    assert(all.take(all.len() as int) =~= all);
    d
}

fn chase(m: &Dict<String>, n: &String) -> (r: String)
    ensures
        r@ == chased(renaming::names_of(m@), n@, 0),
{
    let ghost names = renaming::names_of(m@);
    let mut cur = n.clone();
    let mut hops: u8 = 0;
    while hops <= 32
        invariant
            hops <= 33,
            names == renaming::names_of(m@),
            chased(names, n@, 0) == chased(names, cur@, hops as nat),
        ensures
            chased(names, n@, 0) == cur@,
        decreases 33 - hops,
    {
        match m.get(&cur) {
            Some(next) => {
                assert(names[cur@] == next@);
                if text::same(next, &cur) {
                    break;
                }
                cur = next.clone();
            },
            None => {
                break;
            },
        }
        hops += 1;
    }
    cur
}

fn resolve_transitive_renames(l: &Vec<(String, String)>) -> (r: Vec<(String, String)>)
    ensures
        pairs(r@) == collapsed(pairs(l@)),
{
    let m = make_dict(l);
    let ghost all = pairs(l@);
    let mut out: Vec<(String, String)> = Vec::new();
    let mut i: usize = 0;
    while i < l.len()
        invariant
            i <= l.len(),
            out.len() == i,
            all == pairs(l@),
            renaming::names_of(m@) == rename_map(all),
            forall|k: int| 0 <= k < i ==> pairs(out@)[k] == #[trigger] collapsed(all)[k],
        decreases l.len() - i,
    {
        let ghost before = out@;
        out.push((l[i].0.clone(), chase(&m, &l[i].1)));
        assert forall|k: int| 0 <= k < i + 1 implies pairs(out@)[k] == #[trigger] collapsed(
            all,
        )[k] by {
            if k < i {
                assert(out@[k] == before[k]);
                assert(pairs(before)[k] == collapsed(all)[k]);
            }
        }
        i += 1;
    }
    assert(pairs(out@) =~= collapsed(all));
    out
}

/// Replaces the aliases of bindings that are never assigned by those bindings, loop bodies
/// included, and drops the definitions of the aliases.
pub fn eliminate_immutable_aliases(stmts: Vec<Statement>) -> (r: Vec<Statement>)
    ensures
        model::stmts(r@) == alias_rounds(model::stmts(stmts@), MAX_ALIAS_PASSES as nat),
{
    let ghost first = model::stmts(stmts@);
    let mut cur = stmts;
    let mut n: usize = MAX_ALIAS_PASSES;
    while n > 0
        invariant
            n <= MAX_ALIAS_PASSES,
            alias_rounds(first, MAX_ALIAS_PASSES as nat) == alias_rounds(
                model::stmts(cur@),
                n as nat,
            ),
        ensures
            alias_rounds(first, MAX_ALIAS_PASSES as nat) == model::stmts(cur@),
        decreases n,
    {
        let l = collect_immutable_aliases(&cur);
        assert(pairs(l@).len() == l@.len());
        if l.len() == 0 {
            break;
        }
        let d = make_dict(&resolve_transitive_renames(&l));
        cur = cleanup_noise(rename_stmts(&d, &cur));
        n -= 1;
    }
    cur
}

} // verus!
