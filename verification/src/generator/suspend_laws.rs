//! What the suspend points of a generator, and the markers around them, become.

use crate::ir::bodies;
use crate::ir::model::{Const, Expr, Key, Stmt, Val};
use crate::text;
use vstd::prelude::*;

verus! {

/// Whether a list has a marked suspend point at a position.
pub open spec fn marked(s: Seq<Stmt>, i: int) -> bool {
    0 <= i < s.len() && (s[i] matches Stmt::Comment(c) && text::has_prefix(c, "__yield_point__"@))
}

/// Whether a statement assigns the value that a generator is resumed with.
pub open spec fn takes_resumed(s: Stmt) -> bool {
    match s {
        Stmt::Assign { value: Expr::Call { callee, .. }, .. } => match *callee {
            Expr::Member { property: Key::Ident(n), .. } => n == "resume"@,
            _ => false,
        },
        _ => false,
    }
}

/// Whether an expression hands out a value: a generator yields it, and an asynchronous function
/// waits for it.
pub open spec fn hands_out(a: bool, x: Expr, v: Expr) -> bool {
    match x {
        Expr::Await(e) => a && *e == v,
        Expr::Yield { value, delegate } => !a && !delegate && *value == v,
        _ => false,
    }
}

proof fn lemma_from(a: bool, s: Seq<Stmt>, t: Seq<Stmt>, i: int, k: int)
    requires
        0 <= i <= s.len(),
        t == s.skip(k),
        0 <= k <= i,
    ensures
        super::suspended_from(a, s, i) == super::suspended_from(a, t, i - k),
    decreases s.len() - i,
{
    if i < s.len() {
        assert(t[i - k] == s[i]);
        if i + 1 < s.len() {
            assert(t[i + 1 - k] == s[i + 1]);
        }
        if i + 2 < s.len() {
            assert(t[i + 2 - k] == s[i + 2]);
        }
        match super::suspend_point(a, s, i) {
            Some(x) => {
                lemma_from(a, s, t, i + x.1, k);
            },
            None => {
                lemma_from(a, s, t, i + 1, k);
            },
        }
    }
}

/// Code before the first suspend point stays as it is.
pub proof fn lemma_code_before_stays(a: bool, s: Seq<Stmt>, n: int)
    requires
        0 <= n <= s.len(),
        forall|i: int| 0 <= i < n ==> !#[trigger] marked(s, i),
    ensures
        super::suspended_from(a, s, 0) == s.take(n) + super::suspended_from(a, s.skip(n), 0),
    decreases n,
{
    if n == 0 {
        assert(s.skip(0) =~= s);
        assert(s.take(0) + super::suspended_from(a, s, 0) =~= super::suspended_from(a, s, 0));
    } else {
        assert(!marked(s, 0));
        let t = s.skip(1);
        lemma_from(a, s, t, 1, 1);
        assert forall|i: int| 0 <= i < n - 1 implies !#[trigger] marked(t, i) by {
            assert(!marked(s, i + 1));
            assert(t[i] == s[i + 1]);
        }
        lemma_code_before_stays(a, t, n - 1);
        assert(t.skip(n - 1) =~= s.skip(n));
        assert(seq![s[0]] + (t.take(n - 1) + super::suspended_from(a, s.skip(n), 0)) =~= s.take(n)
            + super::suspended_from(a, s.skip(n), 0));
    }
}

/// Code without suspend points stays as it is.
pub proof fn lemma_code_without_suspend_points_stays(a: bool, s: Seq<Stmt>)
    requires
        forall|i: int| 0 <= i < s.len() ==> !#[trigger] marked(s, i),
    ensures
        super::suspended_from(a, s, 0) == s,
{
    lemma_code_before_stays(a, s, s.len() as int);
    assert(s.take(s.len() as int) =~= s);
}

/// A marker, the return behind it and the statement that takes the value on resumption become one
/// statement, which hands out the returned value and gives what comes back to the same target. What
/// follows is treated alike.
pub proof fn lemma_suspend_point_hands_out_and_takes(a: bool, s: Seq<Stmt>)
    requires
        s.len() >= 3,
        marked(s, 0),
        s[1] is Return,
        takes_resumed(s[2]),
    ensures
        super::suspended_from(a, s, 0).len() > 0,
        match super::suspended_from(a, s, 0)[0] {
            Stmt::Assign { target, value } => s[2]->Assign_target == target && hands_out(
                a,
                value,
                match s[1] {
                    Stmt::Return(Some(v)) => v,
                    _ => Expr::Value(Val::Constant(Const::Undefined)),
                },
            ),
            _ => false,
        },
        super::suspended_from(a, s, 0).skip(1) == super::suspended_from(a, s.skip(3), 0),
{
    lemma_from(a, s, s.skip(3), 3, 3);
    let rest = super::suspended_from(a, s, 3);
    assert(super::resume_call(s[2]->Assign_value));
    let x = super::suspend_point(a, s, 0);
    assert((seq![x->Some_0.0] + rest).skip(1) =~= rest);
}

/// A marker and the return behind it become one statement, which hands out the returned value. What
/// follows is treated alike.
pub proof fn lemma_suspend_point_hands_out(a: bool, s: Seq<Stmt>)
    requires
        s.len() >= 2,
        marked(s, 0),
        s[1] is Return,
        s.len() >= 3 ==> !takes_resumed(s[2]),
    ensures
        super::suspended_from(a, s, 0).len() > 0,
        match super::suspended_from(a, s, 0)[0] {
            Stmt::Expr(x) => hands_out(
                a,
                x,
                match s[1] {
                    Stmt::Return(Some(v)) => v,
                    _ => Expr::Value(Val::Constant(Const::Undefined)),
                },
            ),
            _ => false,
        },
        super::suspended_from(a, s, 0).skip(1) == super::suspended_from(a, s.skip(2), 0),
{
    lemma_from(a, s, s.skip(2), 2, 2);
    let rest = super::suspended_from(a, s, 2);
    if s.len() >= 3 {
        if let Stmt::Assign { value, .. } = s[2] {
            assert(!super::resume_call(value));
        }
    }
    let x = super::suspend_point(a, s, 0);
    assert((seq![x->Some_0.0] + rest).skip(1) =~= rest);
}

/// Whether a statement is a comment that the generator instructions left.
pub open spec fn generator_comment(s: Stmt) -> bool {
    match s {
        Stmt::Comment(c) => c == "StartGenerator"@ || c == "SaveGenerator"@ || c
            == "ResumeGenerator"@ || c == "CompleteGenerator"@ || text::has_prefix(
            c,
            "__yield_point__"@,
        ),
        _ => false,
    }
}

/// Every comment that the generator instructions left goes, and nothing else does.
pub proof fn lemma_only_generator_comments_go(s: Seq<Stmt>)
    ensures
        super::uncommented(s) == s.filter(|x: Stmt| !generator_comment(x)).map_values(
            |x: Stmt| super::uncommented_nested(x),
        ),
    decreases s.len(),
{
    reveal(Seq::filter);
    let p = |x: Stmt| !generator_comment(x);
    let f = |x: Stmt| super::uncommented_nested(x);
    if s.len() > 0 {
        lemma_only_generator_comments_go(s.drop_last());
        let before = s.drop_last().filter(p);
        if p(s.last()) {
            assert(before.push(s.last()).map_values(f) =~= before.map_values(f).push(
                f(s.last()),
            ));
        }
    }
}

/// The comments go from every list in a statement, and the rest of it stays.
pub proof fn lemma_comments_go_from_every_list(s: Stmt)
    ensures
        bodies::within(super::uncommented_nested(s), s, |b: Seq<Stmt>| super::uncommented(b)),
{
    let f = |b: Seq<Stmt>| super::uncommented(b);
    let t = super::uncommented_nested(s);
    if let Stmt::Switch { cases, default, .. } = s {
        let made = super::uncommented_nested_cases(cases);
        let rest = super::uncommented_nested_default(default);
        assert forall|i: int| 0 <= i < cases.len() implies #[trigger] made[i] == (
            cases[i].0,
            f(cases[i].1),
        ) by {
            assert(made[i] == super::uncommented_nested_case(cases[i]));
        }
        assert(Seq::new(made.len(), |i: int| (made[i].0, Seq::<Stmt>::empty())) =~= Seq::new(
            cases.len(),
            |i: int| (cases[i].0, Seq::<Stmt>::empty()),
        ));
    }
    assert(bodies::bodies(t) =~= bodies::bodies(s).map_values(f));
}

/// The suspend points of every list in a statement are recovered, and the rest of it stays.
pub proof fn lemma_suspend_points_of_every_list(a: bool, s: Stmt)
    ensures
        bodies::within(super::suspended_nested(a, s), s, |b: Seq<Stmt>| super::suspended(a, b)),
{
    let f = |b: Seq<Stmt>| super::suspended(a, b);
    let t = super::suspended_nested(a, s);
    if let Stmt::Switch { cases, default, .. } = s {
        let made = super::suspended_nested_cases(a, cases);
        let rest = super::suspended_nested_default(a, default);
        assert forall|i: int| 0 <= i < cases.len() implies #[trigger] made[i] == (
            cases[i].0,
            f(cases[i].1),
        ) by {
            assert(made[i] == super::suspended_nested_case(a, cases[i]));
        }
        assert(Seq::new(made.len(), |i: int| (made[i].0, Seq::<Stmt>::empty())) =~= Seq::new(
            cases.len(),
            |i: int| (cases[i].0, Seq::<Stmt>::empty()),
        ));
    }
    assert(bodies::bodies(t) =~= bodies::bodies(s).map_values(f));
}

} // verus!
