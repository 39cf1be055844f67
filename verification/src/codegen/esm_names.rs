//! Names for import bindings: the module's own name in place of a generated one.

use super::esm_boilerplate;
use super::esm_specifiers;
use super::esm_specifiers::bindings_of_line;
use super::words;
use super::words::{replace_whole_word, sanitize_import_name};
use super::{lookup_name, Codegen, Gen};
use crate::dict::{Dict, NameSet};
use crate::ir::bindings;
use crate::ir::bindings::as_binding;
use crate::ir::model;
use crate::ir::model::{Stmt, Val};
use crate::ir::nested;
use crate::ir::occurs;
use crate::ir::occurs::{Atom, Occurrence};
use crate::ir::renaming;
use crate::ir::{Statement, Value};
use crate::metro;
use crate::names;
use crate::text;
use std::collections::BTreeMap;
use vstd::prelude::*;

verus! {

/// A prefix with digits, or nothing, behind it.
pub open spec fn stem_with_digits(name: Seq<char>, prefix: Seq<char>) -> bool {
    match text::after_prefix(name, prefix) {
        Some(rest) => text::all_digits(rest),
        None => false,
    }
}

/// A binding whose name is a placeholder, which takes the module's name where it is an import.
pub open spec fn generic_binding(name: Seq<char>) -> bool {
    ||| text::has_prefix(name, "closure_"@)
    ||| text::has_suffix(text::stripped_end(name, "0123456789"@), "Result"@)
    ||| stem_with_digits(name, "tmp"@)
    ||| name.len() > 1 && stem_with_digits(name, "r"@)
    ||| stem_with_digits(name, "obj"@)
    ||| stem_with_digits(name, "arr"@)
}

fn is_stem_with_digits(name: &str, prefix: &str) -> (r: bool)
    ensures
        r == stem_with_digits(name@, prefix@),
{
    match text::strip_prefix(name, prefix) {
        Some(rest) => text::is_all_digits(&rest),
        None => false,
    }
}

/// Whether a binding's name is a placeholder.
pub fn is_generic_import_binding(name: &str) -> (r: bool)
    ensures
        r == generic_binding(name@),
{
    text::starts_with(name, "closure_") || text::ends_with(
        &text::strip_end(name, "0123456789"),
        "Result",
    ) || is_stem_with_digits(name, "tmp") || (name.unicode_len() > 1 && is_stem_with_digits(
        name,
        "r",
    )) || is_stem_with_digits(name, "obj") || is_stem_with_digits(name, "arr")
}

/// A module name that would not read better than the placeholder.
pub open spec fn bad_binding(name: Seq<char>) -> bool {
    metro::generic_specifier(name) || name == "module"@ || name == "exports"@ || name == "default"@
        || name == "require"@
}

pub fn is_bad_module_binding(name: &str) -> (r: bool)
    ensures
        r == bad_binding(name@),
{
    metro::is_generic_module_specifier(name) || text::same(name, "module") || text::same(
        name,
        "exports",
    ) || text::same(name, "default") || text::same(name, "require")
}

/// The candidates for a binding: the base name, then the base name with 2, 3 and so on.
pub open spec fn candidate(base: Seq<char>, i: int) -> Seq<char> {
    if i < 2 {
        base
    } else {
        names::numbered(base, i as nat)
    }
}

/// The module that a definition's value loads, directly or through a wrapper.
pub open spec fn loaded_anyhow(g: Gen, e: model::Expr) -> Option<(Seq<char>, u32)> {
    match esm_boilerplate::loaded(g, e) {
        Some(p) => Some(p),
        None => esm_boilerplate::wrapped_load(g, e),
    }
}

/// Whether a definition gives a name something else than the module `id`.
pub open spec fn unrelated(g: Gen, d: Stmt, name: Seq<char>, id: u32) -> bool {
    match bindings::binding(d) {
        Some(b) => b.0 == name && match loaded_anyhow(g, b.1) {
            Some(m) => m.1 != id,
            None => true,
        },
        None => false,
    }
}

/// Whether one of the statements gives a name something else than the module `id`.
pub open spec fn bound_otherwise(g: Gen, s: Seq<Stmt>, name: Seq<char>, id: u32) -> bool {
    exists|i: int| 0 <= i < s.len() && unrelated(g, #[trigger] s[i], name, id)
}

/// Whether a name cannot be the binding of the module `id` in a module with the statements `w`: it
/// is the binding of another import, a variable that is read, or one that holds something else.
pub open spec fn taken(g: Gen, w: Seq<Stmt>, used: Set<Seq<char>>, name: Seq<char>, id: u32) -> bool {
    used.contains(name) || occurs::stmts_atoms(w).contains(Atom::Use(Val::Variable(name)))
        || bound_otherwise(g, nested::flat(w), name, id)
}

/// The first candidate from `i` on that is not taken.
pub open spec fn fresh(
    g: Gen,
    w: Seq<Stmt>,
    used: Set<Seq<char>>,
    base: Seq<char>,
    id: u32,
    i: int,
) -> Seq<char>
    decreases u32::MAX - i,
{
    if i >= u32::MAX || !taken(g, w, used, candidate(base, i), id) {
        candidate(base, i)
    } else {
        fresh(g, w, used, base, id, i + 1)
    }
}

/// A fresh name is not taken, as long as the candidates do not run out.
pub proof fn lemma_fresh(
    g: Gen,
    w: Seq<Stmt>,
    used: Set<Seq<char>>,
    base: Seq<char>,
    id: u32,
    i: int,
)
    requires
        i <= u32::MAX,
    ensures
        !taken(g, w, used, fresh(g, w, used, base, id, i), id) || fresh(g, w, used, base, id, i)
            == candidate(base, u32::MAX as int),
    decreases u32::MAX - i,
{
    if i < u32::MAX && taken(g, w, used, candidate(base, i), id) {
        lemma_fresh(g, w, used, base, id, i + 1);
    }
}

/// The bindings chosen so far.
#[verifier::ext_equal]
pub struct Chosen {
    /// Old name -> new name.
    pub renames: Map<Seq<char>, Seq<char>>,
    /// Module id -> its binding.
    pub by_id: Map<u32, Seq<char>>,
    /// The bindings in use.
    pub used: Set<Seq<char>>,
}

/// The bindings with one more statement taken into account. Two captures of one module share
/// its binding; two modules of one name never do.
pub open spec fn choose_step(g: Gen, w: Seq<Stmt>, c: Chosen, s: Stmt) -> Chosen {
    match bindings::binding(s) {
        Some(d) => if !generic_binding(d.0) {
            c
        } else {
            match loaded_anyhow(g, d.1) {
                Some(m) => {
                    let base = words::import_name(m.0);
                    if !names::valid_identifier(base) || bad_binding(base) {
                        c
                    } else if c.by_id.dom().contains(m.1) {
                        Chosen { renames: c.renames.insert(d.0, c.by_id[m.1]), ..c }
                    } else {
                        let name = fresh(g, w, c.used, base, m.1, 1);
                        Chosen {
                            renames: c.renames.insert(d.0, name),
                            by_id: c.by_id.insert(m.1, name),
                            used: c.used.insert(name),
                        }
                    }
                },
                None => c,
            }
        },
        None => c,
    }
}

pub open spec fn chosen(g: Gen, w: Seq<Stmt>, s: Seq<Stmt>) -> Chosen
    decreases s.len(),
{
    if s.len() == 0 {
        Chosen { renames: Map::empty(), by_id: Map::empty(), used: Set::empty() }
    } else {
        choose_step(g, w, chosen(g, w, s.drop_last()), s.last())
    }
}

/// The new names of generic import bindings.
pub open spec fn import_renames(g: Gen, s: Seq<Stmt>) -> Map<Seq<char>, Seq<char>> {
    chosen(g, s, s).renames
}

fn make_candidate(base: &str, i: u32) -> (r: String)
    ensures
        r@ == candidate(base@, i as int),
{
    if i < 2 {
        base.to_owned()
    } else {
        names::number_name(base, i as u64)
    }
}

impl Codegen {
    fn resolve_anyhow(&self, e: &crate::ir::Expression) -> (r: Option<(String, u32)>)
        ensures
            match r {
                Some(p) => loaded_anyhow(self@, e@) == Some((p.0@, p.1)),
                None => loaded_anyhow(self@, e@) is None,
            },
    {
        match self.resolve_require_module_id(e) {
            Some(p) => Some(p),
            None => self.resolve_wrapped_module(e),
        }
    }

    fn is_bound_otherwise(&self, v: &Vec<&Statement>, name: &str, id: u32) -> (r: bool)
        ensures
            r == bound_otherwise(self@, nested::seen(v@), name@, id),
    {
        let ghost all = nested::seen(v@);
        let mut i: usize = 0;
        while i < v.len()
            invariant
                i <= v.len(),
                all == nested::seen(v@),
                forall|k: int| 0 <= k < i ==> !unrelated(self@, #[trigger] all[k], name@, id),
            decreases v.len() - i,
        {
            assert(all[i as int] == v@[i as int]@);
            if let Some((n, value)) = as_binding(v[i]) {
                if text::same(n, name) {
                    let other: bool = match self.resolve_anyhow(value) {
                        Some(m) => m.1 != id,
                        None => true,
                    };
                    if other {
                        return true;
                    }
                }
            }
            i += 1;
        }
        false
    }

    fn pick_fresh(
        &self,
        all: &Vec<Occurrence>,
        flat: &Vec<&Statement>,
        Ghost(w): Ghost<Seq<Stmt>>,
        used: &NameSet,
        base: &str,
        id: u32,
    ) -> (r: String)
        requires
            occurs::occs(all@) == occurs::stmts_atoms(w),
            nested::seen(flat@) == nested::flat(w),
        ensures
            r@ == fresh(self@, w, used@, base@, id, 1),
    {
        let mut i: u32 = 1;
        let mut cand = make_candidate(base, i);
        while i < u32::MAX && (used.contains(&cand) || occurs::has(
            all,
            &Occurrence::Use(Value::Variable(cand.clone())),
        ) || self.is_bound_otherwise(flat, &cand, id))
            invariant
                1 <= i,
                occurs::occs(all@) == occurs::stmts_atoms(w),
                nested::seen(flat@) == nested::flat(w),
                cand@ == candidate(base@, i as int),
                fresh(self@, w, used@, base@, id, 1) == fresh(self@, w, used@, base@, id, i as int),
            decreases u32::MAX - i,
        {
            i += 1;
            cand = make_candidate(base, i);
        }
        cand
    }

    /// Maps each generic import binding to its module's name.
    pub fn import_binding_renames(&self, statements: &Vec<Statement>) -> (r: Dict<String>)
        ensures
            renaming::names_of(r@) == import_renames(self@, model::stmts(statements@)),
    {
        let ghost all = model::stmts(statements@);
        let reads = occurs::of_stmts(statements);
        let flat = nested::of_stmts(statements);
        let mut renames: Dict<String> = Dict::new();
        let mut by_id: BTreeMap<u32, String> = BTreeMap::new();
        let mut used = NameSet::new();
        let mut i: usize = 0;
        assert(all.take(0) =~= Seq::empty());
        assert(renaming::names_of(renames@) =~= Map::empty());
        assert(super::name_map(by_id@) =~= Map::empty());
        while i < statements.len()
            invariant
                i <= statements.len(),
                all == model::stmts(statements@),
                occurs::occs(reads@) == occurs::stmts_atoms(all),
                nested::seen(flat@) == nested::flat(all),
                chosen(self@, all, all.take(i as int)) == (Chosen {
                    renames: renaming::names_of(renames@),
                    by_id: super::name_map(by_id@),
                    used: used@,
                }),
            decreases statements.len() - i,
        {
            assert(all.take(i + 1).drop_last() =~= all.take(i as int));
            assert(all[i as int] == statements@[i as int]@);
            let ghost before = renames@;
            let ghost ids = by_id@;
            if let Some((name, value)) = as_binding(&statements[i]) {
                if is_generic_import_binding(name) {
                    if let Some((module, id)) = self.resolve_anyhow(value) {
                        let base = sanitize_import_name(&module);
                        if names::is_valid_identifier(&base) && !is_bad_module_binding(&base) {
                            match lookup_name(&by_id, id) {
                                Some(target) => {
                                    let ghost t = target@;
                                    renames.insert(name, target);
                                    assert(renaming::names_of(renames@) =~= renaming::names_of(
                                        before,
                                    ).insert(name@, t));
                                },
                                None => {
                                    let target = self.pick_fresh(
                                        &reads,
                                        &flat,
                                        Ghost(all),
                                        &used,
                                        &base,
                                        id,
                                    );
                                    let ghost t = target@;
                                    used.insert(&target);
                                    by_id.insert(id, target.clone());
                                    renames.insert(name, target);
                                    assert(renaming::names_of(renames@) =~= renaming::names_of(
                                        before,
                                    ).insert(name@, t));
                                    assert(super::name_map(by_id@) =~= super::name_map(ids).insert(id, t));
                                },
                            }
                        }
                    }
                }
            }
            i += 1;
        }
        assert(all.take(all.len() as int) =~= all);
        renames
    }
}

/// A list of renames ordered by the old name, with one more in it.
pub open spec fn put_rename(
    s: Seq<(Seq<char>, Seq<char>)>,
    from: Seq<char>,
    to: Seq<char>,
) -> Seq<(Seq<char>, Seq<char>)>
    decreases s.len(),
{
    if s.len() == 0 {
        seq![(from, to)]
    } else if s[0].0 == from {
        seq![(from, to)] + s.subrange(1, s.len() as int)
    } else if text::before_in_order(from, s[0].0) {
        seq![(from, to)] + s
    } else {
        seq![s[0]] + put_rename(s.subrange(1, s.len() as int), from, to)
    }
}

pub open spec fn pairs(s: Seq<(String, String)>) -> Seq<(Seq<char>, Seq<char>)> {
    s.map_values(|p: (String, String)| (p.0@, p.1@))
}

fn insert_rename(s: &Vec<(String, String)>, from: &str, to: &str) -> (r: Vec<(String, String)>)
    ensures
        pairs(r@) == put_rename(pairs(s@), from@, to@),
{
    let ghost all = pairs(s@);
    let ghost want = put_rename(all, from@, to@);
    let mut out: Vec<(String, String)> = Vec::new();
    let mut i: usize = 0;
    assert(all.subrange(0, all.len() as int) =~= all);
    assert(pairs(out@) + want =~= want);
    while i < s.len() && !text::same(&s[i].0, from) && !text::is_before(from, &s[i].0)
        invariant
            i <= s.len(),
            all == pairs(s@),
            want == pairs(out@) + put_rename(
                all.subrange(i as int, all.len() as int),
                from@,
                to@,
            ),
        decreases s.len() - i,
    {
        let ghost rest = all.subrange(i as int, all.len() as int);
        let ghost later = put_rename(all.subrange(i + 1, all.len() as int), from@, to@);
        assert(rest.subrange(1, rest.len() as int) =~= all.subrange(i + 1, all.len() as int));
        assert(rest[0] == (s@[i as int].0@, s@[i as int].1@));
        let ghost before = out@;
        out.push((s[i].0.clone(), s[i].1.clone()));
        assert(pairs(out@) =~= pairs(before).push(rest[0]));
        assert(pairs(before) + (seq![rest[0]] + later) =~= pairs(out@) + later);
        i += 1;
    }
    let ghost rest = all.subrange(i as int, all.len() as int);
    let ghost before = out@;
    out.push((from.to_owned(), to.to_owned()));
    assert(pairs(out@) =~= pairs(before).push((from@, to@)));
    if i < s.len() && text::same(&s[i].0, from) {
        assert(rest.subrange(1, rest.len() as int) =~= all.subrange(i + 1, all.len() as int));
        i += 1;
    }
    let ghost tail = all.subrange(i as int, all.len() as int);
    assert(want =~= pairs(out@) + tail);
    let ghost mid = pairs(out@);
    let ghost from_index = i as int;
    while i < s.len()
        invariant
            0 <= from_index <= i <= s.len(),
            all == pairs(s@),
            pairs(out@) == mid + all.subrange(from_index, i as int),
        decreases s.len() - i,
    {
        let ghost now = out@;
        out.push((s[i].0.clone(), s[i].1.clone()));
        assert(pairs(out@) =~= pairs(now).push(all[i as int]));
        assert(all.subrange(from_index, i + 1) =~= all.subrange(from_index, i as int).push(
            all[i as int],
        ));
        i += 1;
    }
    assert(pairs(out@) =~= want);
    out
}

/// A text with every rename applied, in order.
pub open spec fn rename_all(s: Seq<char>, renames: Seq<(Seq<char>, Seq<char>)>) -> Seq<char>
    decreases renames.len(),
{
    if renames.len() == 0 {
        s
    } else {
        words::renamed(
            rename_all(s, renames.drop_last()),
            renames.last().0,
            renames.last().1,
        )
    }
}

fn apply_renames(s: &str, renames: &Vec<(String, String)>) -> (r: String)
    ensures
        r@ == rename_all(s@, pairs(renames@)),
{
    let ghost all = pairs(renames@);
    let mut out = s.to_owned();
    let mut i: usize = 0;
    while i < renames.len()
        invariant
            i <= renames.len(),
            all == pairs(renames@),
            out@ == rename_all(s@, all.take(i as int)),
        decreases renames.len() - i,
    {
        assert(all.take(i + 1).drop_last() =~= all.take(i as int));
        out = replace_whole_word(&out, &renames[i].0, &renames[i].1);
        i += 1;
    }
    assert(all.take(all.len() as int) =~= all);
    out
}

pub open spec fn rename_lines(
    lines: Seq<Seq<char>>,
    renames: Seq<(Seq<char>, Seq<char>)>,
) -> Seq<Seq<char>> {
    Seq::new(lines.len(), |i: int| rename_all(lines[i], renames))
}

/// Applies the renames to each line.
pub fn apply_to_lines(lines: &Vec<String>, renames: &Vec<(String, String)>) -> (r: Vec<String>)
    ensures
        model::texts(r@) == rename_lines(model::texts(lines@), pairs(renames@)),
{
    let mut out: Vec<String> = Vec::new();
    let mut i: usize = 0;
    while i < lines.len()
        invariant
            i <= lines.len(),
            out.len() == i,
            forall|k: int|
                0 <= k < i ==> (#[trigger] out@[k])@ == rename_all(lines@[k]@, pairs(renames@)),
        decreases lines.len() - i,
    {
        out.push(apply_renames(&lines[i], renames));
        i += 1;
    }
    assert(model::texts(out@) =~= rename_lines(model::texts(lines@), pairs(renames@)));
    out
}

/// The renames found in import lines, and the names in use.
#[verifier::ext_equal]
pub struct Found {
    pub used: Set<Seq<char>>,
    pub renames: Seq<(Seq<char>, Seq<char>)>,
}

/// The names that import lines bind.
pub open spec fn names_in_use(lines: Seq<Seq<char>>) -> Set<Seq<char>>
    decreases lines.len(),
{
    if lines.len() == 0 {
        Set::empty()
    } else {
        names_in_use(lines.drop_last()).union(
            esm_specifiers::line_bindings(lines.last()).to_set(),
        )
    }
}

/// The binding takes the module's name, where that is a name and still free.
pub open spec fn take_name(f: Found, binding: Seq<char>, module: Seq<char>) -> Found {
    let name = words::import_name(module);
    if name.len() > 0 && name != binding && !f.used.contains(name) {
        Found { used: f.used.insert(name), renames: put_rename(f.renames, binding, name) }
    } else {
        f
    }
}

/// The binding and module of `import closure_N from "module";`.
pub open spec fn closure_default(line: Seq<char>) -> Option<(Seq<char>, Seq<char>)> {
    match text::after_prefix(line, "import "@) {
        Some(rest) => match text::cut(rest, " "@) {
            Some(p) => match text::cut(p.1, " "@) {
                Some(q) => if text::has_prefix(p.0, "closure_"@) && q.0 == "from"@ {
                    Some(
                        (p.0, text::stripped_start(text::stripped_end(q.1, "\";"@), "\";"@)),
                    )
                } else {
                    None
                },
                None => None,
            },
            None => None,
        },
        None => None,
    }
}

/// What stands before the first of the characters of `set`.
pub open spec fn before_any(s: Seq<char>, set: Seq<char>) -> Option<Seq<char>>
    decreases s.len(),
{
    if s.len() == 0 {
        None
    } else if before_any(s.drop_last(), set) is Some {
        before_any(s.drop_last(), set)
    } else if set.contains(s.last()) {
        Some(s.drop_last())
    } else {
        None
    }
}

/// The binding and module of `import { default as closure_N } from "module";`.
pub open spec fn closure_named(line: Seq<char>) -> Option<(Seq<char>, Seq<char>)> {
    match text::find_in(line, "default as closure_"@) {
        Some(start) => match before_any(
            line.subrange(start + "default as "@.len(), line.len() as int),
            " }"@,
        ) {
            Some(name) => match text::cut(line, "from \""@) {
                Some(p) => match text::cut(p.1, "\""@) {
                    Some(q) => Some((name, q.0)),
                    None => None,
                },
                None => None,
            },
            None => None,
        },
        None => None,
    }
}

pub open spec fn found_step(f: Found, line: Seq<char>) -> Found {
    let one = match closure_default(line) {
        Some(p) => take_name(f, p.0, p.1),
        None => f,
    };
    match closure_named(line) {
        Some(p) => take_name(one, p.0, p.1),
        None => one,
    }
}

pub open spec fn found_in(lines: Seq<Seq<char>>, used: Set<Seq<char>>) -> Found
    decreases lines.len(),
{
    if lines.len() == 0 {
        Found { used, renames: Seq::empty() }
    } else {
        found_step(found_in(lines.drop_last(), used), lines.last())
    }
}

/// The renames of `closure_N` imports to the names of their modules, ordered by the old name.
pub open spec fn closure_renames(lines: Seq<Seq<char>>) -> Seq<(Seq<char>, Seq<char>)> {
    found_in(lines, names_in_use(lines)).renames
}

fn insert_all(out: &mut NameSet, v: &Vec<String>)
    ensures
        final(out)@ == old(out)@.union(model::texts(v@).to_set()),
{
    let ghost all = model::texts(v@);
    let ghost first = out@;
    let mut i: usize = 0;
    assert(first =~= first.union(all.take(0).to_set()));
    while i < v.len()
        invariant
            i <= v.len(),
            all == model::texts(v@),
            out@ == first.union(all.take(i as int).to_set()),
        decreases v.len() - i,
    {
        let ghost next = all.take(i + 1);
        assert(next.drop_last() =~= all.take(i as int));
        assert(next.last() == v@[i as int]@);
        out.insert(&v[i]);
        assert forall|n: Seq<char>| #[trigger] out@.contains(n) == first.union(
            next.to_set(),
        ).contains(n) by {
            if all.take(i as int).contains(n) {
                let k = choose|k: int| 0 <= k < i && all.take(i as int)[k] == n;
                assert(next[k] == n);
            }
            if next.contains(n) && n != next.last() {
                let k = choose|k: int| 0 <= k < next.len() && next[k] == n;
                assert(all.take(i as int)[k] == n);
            }
            assert(next[i as int] == next.last());
        }
        i += 1;
        assert(out@ =~= first.union(next.to_set()));
    }
    assert(all.take(all.len() as int) =~= all);
}

fn collect_used(lines: &Vec<String>) -> (r: NameSet)
    ensures
        r@ == names_in_use(model::texts(lines@)),
{
    let ghost all = model::texts(lines@);
    let mut out = NameSet::new();
    let mut i: usize = 0;
    while i < lines.len()
        invariant
            i <= lines.len(),
            all == model::texts(lines@),
            out@ == names_in_use(all.take(i as int)),
        decreases lines.len() - i,
    {
        assert(all.take(i + 1).drop_last() =~= all.take(i as int));
        assert(all[i as int] == lines@[i as int]@);
        insert_all(&mut out, &bindings_of_line(&lines[i]));
        i += 1;
    }
    assert(all.take(all.len() as int) =~= all);
    out
}

fn read_closure_default(line: &str) -> (r: Option<(String, String)>)
    ensures
        match r {
            Some(p) => closure_default(line@) == Some((p.0@, p.1@)),
            None => closure_default(line@) is None,
        },
{
    match text::strip_prefix(line, "import ") {
        Some(rest) => match text::split_once(&rest, " ") {
            Some(p) => match text::split_once(&p.1, " ") {
                Some(q) => if text::starts_with(&p.0, "closure_") && text::same(&q.0, "from") {
                    let module = text::strip_start(&text::strip_end(&q.1, "\";"), "\";");
                    Some((p.0, module))
                } else {
                    None
                },
                None => None,
            },
            None => None,
        },
        None => None,
    }
}

fn head_before(s: &str, set: &str) -> (r: Option<String>)
    ensures
        text::opt(r) == before_any(s@, set@),
{
    let v = text::chars_of(s);
    let mut i: usize = 0;
    while i < v.len()
        invariant
            v@ == s@,
            i <= v.len(),
            before_any(s@.take(i as int), set@) is None,
        decreases v.len() - i,
    {
        assert(s@.take(i + 1).drop_last() =~= s@.take(i as int));
        if text::is_one_of(v[i], set) {
            proof {
                lemma_before_any_stays(s@, set@, i + 1);
                assert(s@.take(i as int) =~= s@.subrange(0, i as int));
            }
            return Some(text::slice(s, 0, i));
        }
        i += 1;
    }
    assert(s@.take(s@.len() as int) =~= s@);
    None
}

proof fn lemma_before_any_stays(s: Seq<char>, set: Seq<char>, n: int)
    requires
        0 <= n <= s.len(),
        before_any(s.take(n), set) is Some,
    ensures
        before_any(s, set) == before_any(s.take(n), set),
    decreases s.len(),
{
    if n == s.len() {
        assert(s.take(n) =~= s);
    } else {
        assert(s.drop_last().take(n) =~= s.take(n));
        lemma_before_any_stays(s.drop_last(), set, n);
    }
}

fn read_closure_named(line: &str) -> (r: Option<(String, String)>)
    ensures
        match r {
            Some(p) => closure_named(line@) == Some((p.0@, p.1@)),
            None => closure_named(line@) is None,
        },
{
    let n: usize = line.unicode_len();
    match text::find(line, "default as closure_") {
        Some(start) => {
            let m: usize = "default as ".unicode_len();
            proof {
                reveal_strlit("default as closure_");
                reveal_strlit("default as ");
            }
            match head_before(&text::slice(line, start + m, n), " }") {
                Some(name) => match text::split_once(line, "from \"") {
                    Some(p) => match text::split_once(&p.1, "\"") {
                        Some(q) => Some((name, q.0)),
                        None => None,
                    },
                    None => None,
                },
                None => None,
            }
        },
        None => None,
    }
}

fn claim_name(
    used: &mut NameSet,
    renames: &mut Vec<(String, String)>,
    binding: &str,
    module: &str,
)
    ensures
        (Found { used: final(used)@, renames: pairs(final(renames)@) }) == take_name(
            Found { used: old(used)@, renames: pairs(old(renames)@) },
            binding@,
            module@,
        ),
{
    let name = sanitize_import_name(module);
    if !name.as_str().is_empty() && !text::same(&name, binding) && !used.contains(&name) {
        used.insert(&name);
        *renames = insert_rename(renames, binding, &name);
    }
}

/// The renames of `closure_N` imports to the names of their modules.
pub fn collect_closure_renames(lines: &Vec<String>) -> (r: Vec<(String, String)>)
    ensures
        pairs(r@) == closure_renames(model::texts(lines@)),
{
    let ghost all = model::texts(lines@);
    let mut used = collect_used(lines);
    let ghost first = used@;
    let mut renames: Vec<(String, String)> = Vec::new();
    let mut i: usize = 0;
    assert(pairs(renames@) =~= Seq::empty());
    while i < lines.len()
        invariant
            i <= lines.len(),
            all == model::texts(lines@),
            first == names_in_use(all),
            found_in(all.take(i as int), first) == (Found {
                used: used@,
                renames: pairs(renames@),
            }),
        decreases lines.len() - i,
    {
        assert(all.take(i + 1).drop_last() =~= all.take(i as int));
        if let Some((binding, module)) = read_closure_default(&lines[i]) {
            claim_name(&mut used, &mut renames, &binding, &module);
        }
        if let Some((binding, module)) = read_closure_named(&lines[i]) {
            claim_name(&mut used, &mut renames, &binding, &module);
        }
        i += 1;
    }
    assert(all.take(all.len() as int) =~= all);
    renames
}

} // verus!
