//! Which stores and bindings go, and what is left of them.

use super::dead_assign;
use super::dead_bindings;
use crate::ir::effects;
use crate::ir::model::{Const, Expr, Key, Stmt, Target, Val};
use crate::ir::occurs;
use crate::ir::occurs::Atom;
use crate::text;
use vstd::prelude::*;

verus! {

/// Whether an expression copies a binding, a scalar constant, or a member of one.
pub open spec fn copies(e: Expr) -> bool
    decreases e,
{
    match e {
        Expr::Value(Val::Constant(Const::String(_))) => false,
        Expr::Value(Val::Constant(Const::BigInt(_))) => false,
        Expr::Value(Val::Constant(_)) => true,
        Expr::Value(v) => v is Variable || v is Register || v is Parameter || v is This,
        Expr::Member { object, property, .. } => copies(*object) && match property {
            Key::Computed(k) => !effects::effects(*k),
            _ => true,
        },
        _ => false,
    }
}

proof fn lemma_copies(e: Expr)
    ensures
        copies(e) == (dead_bindings::trivial(e) && !effects::effects(e)),
    decreases e,
{
    if let Expr::Member { object, property, .. } = e {
        lemma_copies(*object);
        assert(effects::key_effects(property) == (property matches Key::Computed(k)
            && effects::effects(*k)));
    }
}

/// Whether a name is a stem with only digits behind it.
pub open spec fn stem_and_digits(name: Seq<char>, stem: Seq<char>) -> bool {
    exists|d: Seq<char>| #[trigger] text::all_digits(d) && name == stem + d
}

/// Whether a name is one that nobody wrote: the stem of a temporary and a number.
pub open spec fn made_up(name: Seq<char>) -> bool {
    ||| stem_and_digits(name, "tmp"@)
    ||| stem_and_digits(name, "num"@)
    ||| stem_and_digits(name, "str"@)
    ||| stem_and_digits(name, "val"@)
    ||| stem_and_digits(name, "bool"@)
    ||| stem_and_digits(name, "obj"@)
    ||| stem_and_digits(name, "arr"@)
    ||| stem_and_digits(name, "r"@) && name != "r"@
}

proof fn lemma_stem(name: Seq<char>, stem: Seq<char>)
    ensures
        stem_and_digits(name, stem) == dead_bindings::numbered_from(name, stem),
{
    if stem_and_digits(name, stem) {
        let d = choose|d: Seq<char>| #[trigger] text::all_digits(d) && name == stem + d;
        assert((stem + d).subrange(0, stem.len() as int) =~= stem);
        assert((stem + d).subrange(stem.len() as int, (stem + d).len() as int) =~= d);
        assert(text::occurs_at(name, stem, 0));
    }
    if dead_bindings::numbered_from(name, stem) {
        let d = name.subrange(stem.len() as int, name.len() as int);
        assert(text::occurs_at(name, stem, 0));
        assert(text::all_digits(d));
        assert(name =~= stem + d);
    }
}

/// Whether a statement binds a made-up name that nothing reads to a copy.
pub open spec fn idle(reads: Seq<Atom>, s: Stmt) -> bool {
    match s {
        Stmt::Let { name, value, .. } => made_up(name) && copies(value) && !reads.contains(
            Atom::Use(Val::Variable(name)),
        ),
        Stmt::Assign { target: Target::Variable(name), value } => made_up(name) && copies(value)
            && !reads.contains(Atom::Use(Val::Variable(name))),
        _ => false,
    }
}

proof fn lemma_made_up(name: Seq<char>)
    ensures
        made_up(name) == dead_bindings::generic_temp(name),
{
    lemma_stem(name, "tmp"@);
    lemma_stem(name, "num"@);
    lemma_stem(name, "str"@);
    lemma_stem(name, "val"@);
    lemma_stem(name, "bool"@);
    lemma_stem(name, "obj"@);
    lemma_stem(name, "arr"@);
    lemma_stem(name, "r"@);
    reveal_strlit("r");
    if dead_bindings::numbered_from(name, "r"@) && name.len() <= 1 {
        assert(name =~= "r"@);
    }
}

proof fn lemma_idle(reads: Seq<Atom>, s: Stmt)
    ensures
        idle(reads, s) == dead_bindings::dead_stmt(reads, s),
{
    match s {
        Stmt::Let { name, value, .. } => {
            lemma_made_up(name);
            lemma_copies(value);
        },
        Stmt::Assign { target: Target::Variable(name), value } => {
            lemma_made_up(name);
            lemma_copies(value);
        },
        _ => {},
    }
}

/// The bindings that go are exactly those of a made-up name that nothing reads to a copy.
pub proof fn lemma_only_idle_bindings_go(reads: Seq<Atom>, s: Seq<Stmt>)
    ensures
        dead_bindings::stripped(reads, s) == s.filter(|x: Stmt| !idle(reads, x)).map_values(
            |x: Stmt| dead_bindings::stripped_nested(reads, x),
        ),
    decreases s.len(),
{
    reveal(Seq::filter);
    let p = |x: Stmt| !idle(reads, x);
    let f = |x: Stmt| dead_bindings::stripped_nested(reads, x);
    if s.len() > 0 {
        lemma_only_idle_bindings_go(reads, s.drop_last());
        lemma_idle(reads, s.last());
        let before = s.drop_last().filter(p);
        if p(s.last()) {
            assert(before.push(s.last()).map_values(f) =~= before.map_values(f).push(f(s.last())));
        }
    }
}

/// The leaf that reads what a store writes, if a later store can overwrite it.
pub open spec fn reading(t: Target) -> Option<Val> {
    match t {
        Target::Register(r) => Some(Val::Register(r)),
        Target::Variable(n) => Some(Val::Variable(n)),
        _ => None,
    }
}

/// Whether a statement gives a place a new value.
pub open spec fn renews(s: Stmt, v: Val) -> bool {
    match s {
        Stmt::Assign { target, .. } => reading(target) == Some(v),
        Stmt::Let { name, .. } => v == Val::Variable(name),
        _ => false,
    }
}

/// Whether a statement neither branches nor reads a leaf.
pub open spec fn passes(s: Stmt, v: Val) -> bool {
    (s is Assign || s is Expr || s is Let) && !occurs::stmt_atoms(s).contains(Atom::Use(v))
}

/// Whether what a leaf reads is given a new value at `j`, with nothing from `i` on to read it.
pub open spec fn renewed_at(s: Seq<Stmt>, i: int, j: int, v: Val) -> bool {
    i <= j < s.len() && renews(s[j], v) && forall|k: int| i <= k <= j ==> passes(#[trigger] s[k], v)
}

/// Whether the store at a position writes a value that nothing can read.
pub open spec fn lost(s: Seq<Stmt>, i: int) -> bool {
    match s[i] {
        Stmt::Assign { target, .. } => match reading(target) {
            Some(v) => exists|j: int| #[trigger] renewed_at(s, i + 1, j, v),
            None => false,
        },
        _ => false,
    }
}

proof fn lemma_overwritten(s: Seq<Stmt>, i: int, l: dead_assign::Loc, v: Val)
    requires
        0 <= i,
        match l {
            dead_assign::Loc::Register(r) => v == Val::Register(r),
            dead_assign::Loc::Variable(n) => v == Val::Variable(n),
        },
    ensures
        dead_assign::overwritten(s, i, l) == (exists|j: int| #[trigger] renewed_at(s, i, j, v)),
    decreases s.len() - i,
{
    if i < s.len() {
        assert(dead_assign::overwrites_loc(s[i], l) == renews(s[i], v)) by {
            if let Stmt::Assign { target, .. } = s[i] {
                assert((dead_assign::stored(target) == Some(l)) == (reading(target) == Some(v)));
            }
        }
        lemma_overwritten(s, i + 1, l, v);
        if dead_assign::overwritten(s, i, l) {
            if dead_assign::overwrites_loc(s[i], l) {
                assert(renewed_at(s, i, i, v));
            } else {
                let j = choose|j: int| #[trigger] renewed_at(s, i + 1, j, v);
                assert forall|k: int| i <= k <= j implies passes(#[trigger] s[k], v) by {
                    if k > i {
                        assert(passes(s[k], v));
                    }
                }
                assert(renewed_at(s, i, j, v));
            }
        }
        if exists|j: int| #[trigger] renewed_at(s, i, j, v) {
            let j = choose|j: int| #[trigger] renewed_at(s, i, j, v);
            assert(passes(s[i], v));
            if j > i {
                assert(renewed_at(s, i + 1, j, v));
            }
        }
    }
}

/// What is to be left of a store that nothing can read: nothing of a copy, the value alone where
/// evaluating it does something, and the store otherwise.
pub open spec fn leavings(s: Stmt) -> Seq<Stmt> {
    match s {
        Stmt::Assign { value, .. } => if copies(value) {
            Seq::empty()
        } else if effects::effects(value) && !(value is Object || value is Array) {
            seq![Stmt::Expr(value)]
        } else {
            seq![s]
        },
        _ => seq![s],
    }
}

/// The first statements of a list with what is left of each.
pub open spec fn leavings_to(s: Seq<Stmt>, n: int) -> Seq<Stmt>
    decreases n,
{
    if n <= 0 {
        Seq::empty()
    } else {
        leavings_to(s, n - 1) + (if lost(s, n - 1) {
            leavings(s[n - 1])
        } else {
            seq![dead_assign::live_nested(s[n - 1])]
        })
    }
}

proof fn lemma_prefix(s: Seq<Stmt>, n: int)
    requires
        0 <= n <= s.len(),
    ensures
        dead_assign::live_prefix(s, n) == leavings_to(s, n),
    decreases n,
{
    if n > 0 {
        lemma_prefix(s, n - 1);
        if let Stmt::Assign { target, value } = s[n - 1] {
            match dead_assign::stored(target) {
                Some(l) => {
                    lemma_overwritten(s, n, l, reading(target)->Some_0);
                },
                None => {},
            }
            lemma_copies(value);
        }
        assert(dead_assign::dead_store(s, n - 1) == lost(s, n - 1));
        if lost(s, n - 1) {
            assert(dead_assign::remains(s[n - 1]) =~= leavings(s[n - 1]));
        } else {
            assert(leavings_to(s, n) =~= leavings_to(s, n - 1).push(
                dead_assign::live_nested(s[n - 1]),
            ));
        }
    }
}

/// A store is dropped, or cut down to its value, only where a later store of the list renews the
/// same place with no read and no branch in between. What is left of it still does what evaluating
/// its value does.
pub proof fn lemma_only_lost_stores_go(s: Seq<Stmt>)
    ensures
        dead_assign::live(s) == leavings_to(s, s.len() as int),
{
    lemma_prefix(s, s.len() as int);
}

/// The lists of branches, `while` loops and blocks lose their dead stores, and any other statement
/// stays as it is.
pub proof fn lemma_dead_stores_of_lists(s: Stmt)
    ensures
        s is If || s is While || s is Block ==> crate::ir::bodies::within(
            dead_assign::live_nested(s),
            s,
            |b: Seq<Stmt>| dead_assign::live(b),
        ),
        !(s is If || s is While || s is Block) ==> dead_assign::live_nested(s) == s,
{
    let f = |b: Seq<Stmt>| dead_assign::live(b);
    let t = dead_assign::live_nested(s);
    if s is If || s is While || s is Block {
        assert(crate::ir::bodies::bodies(t) =~= crate::ir::bodies::bodies(s).map_values(f));
    }
}

} // verus!
