//! Choices, turned conditionals and dropped returns keep what statements mean.

use super::dead_bindings;
use super::invert;
use super::merge_returns;
use super::ternary;
use crate::ir::bodies;
use crate::ir::meaning;
use crate::ir::meaning::{Meaning, State};
use crate::ir::model::{Expr, Stmt};
use crate::ir::occurs::Atom;
use crate::ir::UnaryOp;
use vstd::prelude::*;

verus! {

/// The state after a conditional: its condition decides which of its lists is run.
pub open spec fn decide<V, W>(d: Meaning<V, W>, x: State<V, W>, s: Stmt) -> State<V, W> {
    match s {
        Stmt::If { condition, then_body, else_body } => if x.exit is Some {
            x
        } else {
            let c = meaning::eval(d, x.regs, x.world, condition);
            let y = State { world: c.1, ..x };
            if (d.holds)(c.0) {
                meaning::run(d, y, then_body)
            } else {
                meaning::run(d, y, else_body)
            }
        },
        _ => meaning::exec(d, x, s),
    }
}

proof fn lemma_one<V, W>(d: Meaning<V, W>, x: State<V, W>, s: Seq<Stmt>)
    requires
        s.len() == 1,
    ensures
        meaning::run(d, x, s) == meaning::exec(d, x, s[0]),
{
    assert(s.drop_last() =~= Seq::<Stmt>::empty());
    assert(meaning::run(d, x, s.drop_last()) == x);
}

/// A choice means what the conditional meant that it was made of: the same value is assigned or
/// returned, and the same side effects happen.
pub proof fn lemma_choice_means_the_same<V, W>(d: Meaning<V, W>, x: State<V, W>, s: Stmt)
    ensures
        decide(d, x, ternary::chosen_if(s)) == decide(d, x, s),
{
    if let Stmt::If { condition, then_body, else_body } = s {
        let c = meaning::eval(d, x.regs, x.world, condition);
        let y = State { world: c.1, ..x };
        if then_body.len() == 1 {
            lemma_one(d, y, then_body);
        }
        if else_body.len() == 1 {
            lemma_one(d, y, else_body);
        }
    }
}

/// A conditional that only chooses the value of a register or a variable, or the value to return,
/// becomes a choice.
pub proof fn lemma_choices_are_found(c: Expr, s: Stmt, t: Stmt)
    requires
        match (s, t) {
            (
                Stmt::Assign { target: a, .. },
                Stmt::Assign { target: b, .. },
            ) => a == b && (a is Register || a is Variable),
            (Stmt::Return(Some(_)), Stmt::Return(Some(_))) => true,
            _ => false,
        },
    ensures
        !(ternary::chosen_if(
            Stmt::If { condition: c, then_body: seq![s], else_body: seq![t] },
        ) is If),
{
}

/// Choices are made in every list.
pub proof fn lemma_choices_reach_every_list(s: Stmt)
    ensures
        bodies::within(ternary::chosen_nested(s), s, |b: Seq<Stmt>| ternary::chosen(b)),
{
    let f = |b: Seq<Stmt>| ternary::chosen(b);
    let t = ternary::chosen_nested(s);
    if let Stmt::Switch { cases, default, .. } = s {
        let made = ternary::chosen_nested_cases(cases);
        let rest = ternary::chosen_nested_default(default);
        assert forall|i: int| 0 <= i < cases.len() implies #[trigger] made[i] == (
            cases[i].0,
            f(cases[i].1),
        ) by {
            assert(made[i] == ternary::chosen_nested_case(cases[i]));
        }
        assert(Seq::new(made.len(), |i: int| (made[i].0, Seq::<Stmt>::empty())) =~= Seq::new(
            cases.len(),
            |i: int| (cases[i].0, Seq::<Stmt>::empty()),
        ));
    }
    assert(bodies::bodies(t) =~= bodies::bodies(s).map_values(f));
}

/// Whether `!` gives the opposite of a value and does nothing else.
pub open spec fn negates<V, W>(d: Meaning<V, W>) -> bool {
    let not = Expr::Unary { op: UnaryOp::Not, operand: Box::new(meaning::hole()) };
    forall|v: V, w: W|
        (d.holds)(#[trigger] (d.apply)(not, seq![v], w).0) == !(d.holds)(v) && (d.apply)(
            not,
            seq![v],
            w,
        ).1 == w
}

/// A conditional that is turned around means the same.
pub proof fn lemma_turned_means_the_same<V, W>(d: Meaning<V, W>, x: State<V, W>, s: Stmt)
    requires
        negates(d),
    ensures
        decide(d, x, invert::inverted_if(s)) == decide(d, x, s),
{
    if let Stmt::If { condition, then_body, else_body } = s {
        let not = Expr::Unary { op: UnaryOp::Not, operand: Box::new(meaning::hole()) };
        let turned = invert::negation(condition);
        reveal_with_fuel(meaning::eval, 2);
        match condition {
            Expr::Unary { op: UnaryOp::Not, operand } => {
                let v = meaning::eval(d, x.regs, x.world, *operand);
                let r = (d.apply)(not, seq![v.0], v.1);
                assert(meaning::eval(d, x.regs, x.world, condition) == r);
                assert((d.holds)(r.0) == !(d.holds)(v.0));
            },
            _ => {
                let v = meaning::eval(d, x.regs, x.world, condition);
                let r = (d.apply)(not, seq![v.0], v.1);
                assert(meaning::eval(d, x.regs, x.world, turned) == r);
                assert((d.holds)(r.0) == !(d.holds)(v.0));
            },
        }
    }
}

/// No conditional is left that only does something where it does not hold.
pub proof fn lemma_no_conditional_is_idle(s: Seq<Stmt>, i: int)
    requires
        0 <= i < s.len(),
    ensures
        invert::inverted(s)[i] matches Stmt::If { then_body, else_body, .. } ==> then_body.len() > 0
            || else_body.len() == 0,
{
}

/// Conditionals are turned around in every list.
pub proof fn lemma_turning_reaches_every_list(s: Stmt)
    ensures
        bodies::within(invert::inverted_nested(s), s, |b: Seq<Stmt>| invert::inverted(b)),
{
    let f = |b: Seq<Stmt>| invert::inverted(b);
    let t = invert::inverted_nested(s);
    if let Stmt::Switch { cases, default, .. } = s {
        let made = invert::inverted_nested_cases(cases);
        let rest = invert::inverted_nested_default(default);
        assert forall|i: int| 0 <= i < cases.len() implies #[trigger] made[i] == (
            cases[i].0,
            f(cases[i].1),
        ) by {
            assert(made[i] == invert::inverted_nested_case(cases[i]));
        }
        assert(Seq::new(made.len(), |i: int| (made[i].0, Seq::<Stmt>::empty())) =~= Seq::new(
            cases.len(),
            |i: int| (cases[i].0, Seq::<Stmt>::empty()),
        ));
    }
    assert(bodies::bodies(t) =~= bodies::bodies(s).map_values(f));
}

/// Each statement with the returns in its lists merged.
pub open spec fn each_merged(s: Seq<Stmt>) -> Seq<Stmt> {
    s.map_values(|x: Stmt| merge_returns::merged_nested(x))
}

/// A list means the same without the returns that follow a return.
pub proof fn lemma_merged_list_means_the_same<V, W>(d: Meaning<V, W>, x: State<V, W>, s: Seq<Stmt>)
    ensures
        meaning::run(d, x, merge_returns::merged(s)) == meaning::run(d, x, each_merged(s)),
        s.len() > 0 && s.last() is Return ==> meaning::run(d, x, each_merged(s)).exit is Some,
    decreases s.len(),
{
    if s.len() > 0 {
        let rest = s.drop_last();
        lemma_merged_list_means_the_same(d, x, rest);
        assert(each_merged(s).drop_last() =~= each_merged(rest));
        assert(each_merged(s).last() == merge_returns::merged_nested(s.last()));
        if s.len() > 1 && s.last() is Return && s[s.len() - 2] is Return {
            assert(rest.last() == s[s.len() - 2]);
        } else {
            let m = merge_returns::merged(rest);
            let y = merge_returns::merged_nested(s.last());
            assert(m.push(y).drop_last() =~= m);
        }
    } else {
        assert(each_merged(s) =~= s);
    }
}

proof fn lemma_merged_end(s: Seq<Stmt>)
    requires
        s.len() > 0,
    ensures
        merge_returns::merged(s).len() > 0,
        merge_returns::merged(s).last() is Return <==> s.last() is Return,
    decreases s.len(),
{
    let rest = s.drop_last();
    if s.len() > 1 && s.last() is Return && s[s.len() - 2] is Return {
        assert(rest.last() == s[s.len() - 2]);
        lemma_merged_end(rest);
    } else {
        let y = merge_returns::merged_nested(s.last());
        assert(y is Return <==> s.last() is Return);
        assert(merge_returns::merged(s).last() == y);
    }
}

/// No return follows a return.
pub proof fn lemma_no_return_follows_another(s: Seq<Stmt>, i: int)
    requires
        0 <= i,
        i + 1 < merge_returns::merged(s).len(),
    ensures
        !(merge_returns::merged(s)[i] is Return && merge_returns::merged(s)[i + 1] is Return),
    decreases s.len(),
{
    if s.len() > 0 {
        let rest = s.drop_last();
        let m = merge_returns::merged(rest);
        if s.len() > 1 && s.last() is Return && s[s.len() - 2] is Return {
            lemma_no_return_follows_another(rest, i);
        } else if i + 1 < m.len() {
            lemma_no_return_follows_another(rest, i);
        } else if rest.len() > 0 {
            lemma_merged_end(rest);
            assert(rest.last() == s[s.len() - 2]);
            let y = merge_returns::merged_nested(s.last());
            assert(y is Return <==> s.last() is Return);
            assert(merge_returns::merged(s) == m.push(y));
        }
    }
}

/// Returns are merged in every list.
pub proof fn lemma_merging_reaches_every_list(s: Stmt)
    ensures
        bodies::within(
            merge_returns::merged_nested(s),
            s,
            |b: Seq<Stmt>| merge_returns::merged(b),
        ),
{
    let f = |b: Seq<Stmt>| merge_returns::merged(b);
    let t = merge_returns::merged_nested(s);
    if let Stmt::Switch { cases, default, .. } = s {
        let made = merge_returns::merged_nested_cases(cases);
        let rest = merge_returns::merged_nested_default(default);
        assert forall|i: int| 0 <= i < cases.len() implies #[trigger] made[i] == (
            cases[i].0,
            f(cases[i].1),
        ) by {
            assert(made[i] == merge_returns::merged_nested_case(cases[i]));
        }
        assert(Seq::new(made.len(), |i: int| (made[i].0, Seq::<Stmt>::empty())) =~= Seq::new(
            cases.len(),
            |i: int| (cases[i].0, Seq::<Stmt>::empty()),
        ));
    }
    assert(bodies::bodies(t) =~= bodies::bodies(s).map_values(f));
}

/// Unread bindings go from every list in a statement, and the rest of it stays.
pub proof fn lemma_bindings_go_from_every_list(reads: Seq<Atom>, s: Stmt)
    ensures
        bodies::within(dead_bindings::stripped_nested(reads, s), s, |b: Seq<Stmt>| dead_bindings::stripped(reads, b)),
{
    let f = |b: Seq<Stmt>| dead_bindings::stripped(reads, b);
    let t = dead_bindings::stripped_nested(reads, s);
    if let Stmt::Switch { cases, default, .. } = s {
        let made = dead_bindings::stripped_nested_cases(reads, cases);
        let rest = dead_bindings::stripped_nested_default(reads, default);
        assert forall|i: int| 0 <= i < cases.len() implies #[trigger] made[i] == (
            cases[i].0,
            f(cases[i].1),
        ) by {
            assert(made[i] == dead_bindings::stripped_nested_case(reads, cases[i]));
        }
        assert(Seq::new(made.len(), |i: int| (made[i].0, Seq::<Stmt>::empty())) =~= Seq::new(
            cases.len(),
            |i: int| (cases[i].0, Seq::<Stmt>::empty()),
        ));
    }
    assert(bodies::bodies(t) =~= bodies::bodies(s).map_values(f));
}

} // verus!
