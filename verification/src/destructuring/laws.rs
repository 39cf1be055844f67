//! A recovered pattern stands for the reads that it was recovered from.

use super::babel;
use super::transformer;
use super::transformer::Part;
use crate::ir::bindings;
use crate::ir::bodies;
use crate::ir::model::{Const, Expr, Key, Stmt, Target, Val};
use crate::ir::occurs::Atom;
use crate::ir::BinaryOp;
use vstd::prelude::*;

verus! {

/// What code does, step by step: it takes a part of a value into a target, gives a target a value in
/// place of `undefined`, or does something else.
pub enum Step {
    Takes { from: Val, part: Part, to: Target },
    Falls { to: Target, value: Expr },
    Does(Stmt),
}

/// The part of a value that a key names.
pub open spec fn named(k: Key) -> Option<Part> {
    match k {
        Key::Ident(n) => Some(Part::Name(n)),
        Key::Index(i) => Some(Part::Index(i as int)),
        Key::Computed(e) => match *e {
            Expr::Value(Val::Constant(Const::Integer(i))) => Some(Part::Index(i as int)),
            _ => None,
        },
        Key::String(_) => None,
    }
}

/// Whether a condition holds where a target is `undefined`.
pub open spec fn is_missing(c: Expr, t: Target) -> bool {
    let undefined = Expr::Value(Val::Constant(Const::Undefined));
    match (c, t) {
        (Expr::Binary { op: BinaryOp::StrictEq, left, right }, Target::Register(r)) => *left
            == Expr::Value(Val::Register(r)) && *right == undefined,
        (Expr::Binary { op: BinaryOp::StrictEq, left, right }, Target::Variable(n)) => *left
            == Expr::Value(Val::Variable(n)) && *right == undefined,
        _ => false,
    }
}

/// A read of a part, and the value in its place where there is one.
pub open spec fn reads(v: Val, p: Part, t: Target, d: Option<Expr>) -> Seq<Step> {
    seq![Step::Takes { from: v, part: p, to: t }] + match d {
        Some(e) => seq![Step::Falls { to: t, value: e }],
        None => Seq::empty(),
    }
}

pub open spec fn field_steps(v: Val, f: Seq<(Seq<char>, Target, Option<Expr>)>) -> Seq<Step>
    decreases f.len(),
{
    if f.len() == 0 {
        Seq::empty()
    } else {
        reads(v, Part::Name(f[0].0), f[0].1, f[0].2) + field_steps(v, f.skip(1))
    }
}

/// The elements of an array pattern, the first of which has a given index.
pub open spec fn element_steps(v: Val, k: int, f: Seq<Option<(Target, Option<Expr>)>>) -> Seq<Step>
    decreases f.len(),
{
    if f.len() == 0 {
        Seq::empty()
    } else {
        (match f[0] {
            Some(x) => reads(v, Part::Index(k), x.0, x.1),
            None => Seq::empty(),
        }) + element_steps(v, k + 1, f.skip(1))
    }
}

pub open spec fn steps_of(s: Stmt) -> Seq<Step> {
    match s {
        Stmt::Assign { target: Target::DestructuringObject(f), value: Expr::Value(v) } =>
            field_steps(v, f),
        Stmt::Assign { target: Target::DestructuringArray(f), value: Expr::Value(v) } =>
            element_steps(v, 0, f),
        Stmt::Assign { target, value: Expr::Member { object, property, optional: false } } => match (
            *object,
            named(property),
        ) {
            (Expr::Value(v), Some(p)) => seq![Step::Takes { from: v, part: p, to: target }],
            _ => seq![Step::Does(s)],
        },
        Stmt::If { condition, then_body, else_body } => if then_body.len() == 1 && else_body.len()
            == 0 {
            match then_body[0] {
                Stmt::Assign { target, value } => if is_missing(condition, target) {
                    seq![Step::Falls { to: target, value }]
                } else {
                    seq![Step::Does(s)]
                },
                _ => seq![Step::Does(s)],
            }
        } else {
            seq![Step::Does(s)]
        },
        _ => seq![Step::Does(s)],
    }
}

/// The steps of a list from a position on.
pub open spec fn steps(s: Seq<Stmt>, i: int) -> Seq<Step>
    decreases s.len() - i,
{
    if i < 0 || i >= s.len() {
        Seq::empty()
    } else {
        steps_of(s[i]) + steps(s, i + 1)
    }
}

proof fn lemma_default(s: Seq<Stmt>, i: int, t: Target)
    requires
        0 <= i < s.len(),
    ensures
        transformer::default_at(s, i, t) matches Some(e) ==> i + 1 < s.len() && steps_of(s[i + 1])
            == seq![Step::Falls { to: t, value: e }],
{
}

proof fn lemma_fields(s: Seq<Stmt>, i: int, v: Val)
    requires
        0 <= i <= s.len(),
    ensures
        field_steps(v, transformer::fields_from(s, i, v).0) + steps(
            s,
            transformer::fields_from(s, i, v).1,
        ) == steps(s, i),
    decreases s.len() - i,
{
    let x = transformer::fields_from(s, i, v);
    assert(Seq::<Step>::empty() + steps(s, i) =~= steps(s, i));
    if i < s.len() {
        if let Some((w, Part::Name(n), t)) = transformer::access(s[i]) {
            if w == v {
                let d = transformer::default_at(s, i, t);
                let j = i + transformer::width(s, i, t);
                lemma_default(s, i, t);
                lemma_fields(s, j, v);
                let rest = transformer::fields_from(s, j, v);
                assert(x.0.skip(1) =~= rest.0);
                assert(steps_of(s[i]) == seq![Step::Takes { from: v, part: Part::Name(n), to: t }]);
                assert(d is Some ==> steps(s, i + 1) == steps_of(s[i + 1]) + steps(s, i + 2));
                assert(steps(s, i) =~= reads(v, Part::Name(n), t, d) + steps(s, j));
                assert(field_steps(v, x.0) + steps(s, x.1) =~= reads(v, Part::Name(n), t, d) + (
                field_steps(v, rest.0) + steps(s, rest.1)));
            }
        }
    }
}

proof fn lemma_elements(s: Seq<Stmt>, i: int, v: Val, k: int)
    requires
        0 <= i <= s.len(),
    ensures
        element_steps(v, k, transformer::elements_from(s, i, v, k).0) + steps(
            s,
            transformer::elements_from(s, i, v, k).1,
        ) == steps(s, i),
    decreases s.len() - i,
{
    let x = transformer::elements_from(s, i, v, k);
    assert(Seq::<Step>::empty() + steps(s, i) =~= steps(s, i));
    if i < s.len() {
        if let Some((w, Part::Index(n), t)) = transformer::access(s[i]) {
            if w == v && n == k {
                let d = transformer::default_at(s, i, t);
                let j = i + transformer::width(s, i, t);
                lemma_default(s, i, t);
                lemma_elements(s, j, v, k + 1);
                let rest = transformer::elements_from(s, j, v, k + 1);
                assert(x.0.skip(1) =~= rest.0);
                assert(steps_of(s[i]) == seq![Step::Takes { from: v, part: Part::Index(k), to: t }]);
                assert(d is Some ==> steps(s, i + 1) == steps_of(s[i + 1]) + steps(s, i + 2));
                assert(steps(s, i) =~= reads(v, Part::Index(k), t, d) + steps(s, j));
                assert(element_steps(v, k, x.0) + steps(s, x.1) =~= reads(v, Part::Index(k), t, d)
                    + (element_steps(v, k + 1, rest.0) + steps(s, rest.1)));
            }
        }
    }
}

proof fn lemma_front(x: Stmt, rest: Seq<Stmt>, i: int)
    requires
        0 <= i <= rest.len(),
    ensures
        steps(seq![x] + rest, i + 1) == steps(rest, i),
    decreases rest.len() - i,
{
    if i < rest.len() {
        assert((seq![x] + rest)[i + 1] == rest[i]);
        lemma_front(x, rest, i + 1);
    }
}

/// Recovering patterns keeps what code does, step by step: each part is taken from the same value
/// into the same target in the same order, each with its own default, and all else stays.
pub proof fn lemma_patterns_keep_the_steps(s: Seq<Stmt>, i: int)
    requires
        0 <= i <= s.len(),
    ensures
        steps(transformer::patterns_from(s, i), 0) == steps(s, i),
    decreases s.len() - i,
{
    if i < s.len() {
        transformer::lemma_pattern_end(s, i);
        match transformer::pattern_at(s, i) {
            Some(x) => {
                let rest = transformer::patterns_from(s, x.1);
                lemma_patterns_keep_the_steps(s, x.1);
                lemma_front(x.0, rest, 0);
                assert((seq![x.0] + rest)[0] == x.0);
                if let Some((v, p, t)) = transformer::access(s[i]) {
                    lemma_fields(s, i, v);
                    lemma_elements(s, i, v, 0);
                }
            },
            None => {
                let rest = transformer::patterns_from(s, i + 1);
                lemma_patterns_keep_the_steps(s, i + 1);
                lemma_front(s[i], rest, 0);
                assert((seq![s[i]] + rest)[0] == s[i]);
            },
        }
    }
}

/// Whether a target writes a place.
pub open spec fn writes(t: Target, v: Val) -> bool {
    match t {
        Target::Register(r) => v == Val::Register(r),
        Target::Variable(n) => v == Val::Variable(n),
        _ => false,
    }
}

proof fn lemma_fields_spare(s: Seq<Stmt>, i: int, v: Val, k: int)
    requires
        0 <= i <= s.len(),
        0 <= k < transformer::fields_from(s, i, v).0.len(),
    ensures
        !writes(transformer::fields_from(s, i, v).0[k].1, v),
    decreases s.len() - i,
{
    if i < s.len() {
        if let Some((w, Part::Name(n), t)) = transformer::access(s[i]) {
            if w == v && k > 0 {
                lemma_fields_spare(s, i + transformer::width(s, i, t), v, k - 1);
            }
        }
    }
}

/// A recovered object pattern writes no place that it reads: a part that was read after such a write
/// would be read before it.
pub proof fn lemma_pattern_spares_what_it_reads(s: Seq<Stmt>, i: int, k: int)
    requires
        0 <= i < s.len(),
        match transformer::pattern_at(s, i) {
            Some((Stmt::Assign { target: Target::DestructuringObject(f), .. }, _)) => 0 <= k < f.len(),
            _ => false,
        },
    ensures
        match transformer::pattern_at(s, i) {
            Some(
                (Stmt::Assign { target: Target::DestructuringObject(f), value: Expr::Value(v) }, _),
            ) => !writes(f[k].1, v),
            _ => false,
        },
{
    if let Some((v, p, t)) = transformer::access(s[i]) {
        lemma_fields_spare(s, i, v, k);
    }
}

/// Whether a statement reads a named part of a register or a variable into another one.
pub open spec fn plain_read(s: Stmt, v: Val) -> bool {
    match s {
        Stmt::Assign {
            target,
            value: Expr::Member { object, property: Key::Ident(_), optional: false },
        } => *object == Expr::Value(v) && (v is Register || v is Variable) && (target is Register
            || target is Variable) && !writes(target, v),
        _ => false,
    }
}

/// Two reads of one value in a row do not remain: they are one pattern.
pub proof fn lemma_no_two_reads_remain(s: Seq<Stmt>, i: int, k: int, v: Val)
    requires
        0 <= i <= s.len(),
        0 <= k,
        k + 1 < transformer::patterns_from(s, i).len(),
    ensures
        !(plain_read(transformer::patterns_from(s, i)[k], v) && plain_read(
            transformer::patterns_from(s, i)[k + 1],
            v,
        )),
    decreases s.len() - i,
{
    let out = transformer::patterns_from(s, i);
    if i < s.len() {
        transformer::lemma_pattern_end(s, i);
        let next = match transformer::pattern_at(s, i) {
            Some(x) => x.1,
            None => i + 1,
        };
        let rest = transformer::patterns_from(s, next);
        assert(forall|m: int| 0 < m < out.len() ==> #[trigger] out[m] == rest[m - 1]);
        if k > 0 {
            lemma_no_two_reads_remain(s, next, k - 1, v);
        } else if plain_read(out[0], v) && plain_read(out[1], v) {
            assert(transformer::pattern_at(s, i) is None);
            assert(out[1] == rest[0]);
            assert(rest[0] == s[i + 1]) by {
                transformer::lemma_pattern_end(s, i + 1);
            }
            let a = transformer::access(s[i]);
            let b = transformer::access(s[i + 1]);
            assert(a is Some && b is Some);
            let t = a->Some_0.2;
            assert(transformer::default_at(s, i, t) is None);
            let x = transformer::fields_from(s, i + 1, v);
            assert(x.0.len() > 0);
        }
    }
}

/// Whether a statement reads an element of an array in a variable into a target.
pub open spec fn reads_element(s: Stmt, tmp: Seq<char>, n: int, t: Target) -> bool {
    match s {
        Stmt::Let { name, value: Expr::Member { object, property: Key::Index(i), .. }, .. } =>
            *object == Expr::Value(Val::Variable(tmp)) && i == n && t == Target::Variable(name),
        Stmt::Assign { target, value: Expr::Member { object, property: Key::Index(i), .. } } =>
            *object == Expr::Value(Val::Variable(tmp)) && i == n && t == target,
        _ => false,
    }
}

proof fn lemma_found(t: Seq<Stmt>, from: int, to: int, tmp: Seq<char>, k: int, n: int, x: Target)
    requires
        from <= k < to,
        babel::read_of(t[k], tmp) == Some((x, n)),
    ensures
        babel::found(t, from, to, tmp).contains((n, x)),
    decreases to - from,
{
    let f = babel::found(t, from, to, tmp);
    let before = babel::found(t, from, to - 1, tmp);
    if k == to - 1 {
        assert(f[before.len() as int] == (n, x));
    } else {
        lemma_found(t, from, to - 1, tmp, k, n, x);
        let j = choose|j: int| 0 <= j < before.len() && before[j] == (n, x);
        assert(f[j] == (n, x));
    }
}

proof fn lemma_found_back(t: Seq<Stmt>, from: int, to: int, tmp: Seq<char>, j: int) -> (k: int)
    requires
        0 <= j < babel::found(t, from, to, tmp).len(),
    ensures
        from <= k < to,
        babel::read_of(t[k], tmp) == Some(
            (babel::found(t, from, to, tmp)[j].1, babel::found(t, from, to, tmp)[j].0),
        ),
    decreases to - from,
{
    let before = babel::found(t, from, to - 1, tmp);
    if j < before.len() {
        lemma_found_back(t, from, to - 1, tmp, j)
    } else {
        to - 1
    }
}

proof fn lemma_slot(f: Seq<(int, Target)>, j: int)
    requires
        0 <= j < f.len(),
        babel::distinct(f),
    ensures
        babel::slot_of(f, f[j].0) == Some((f[j].1, None::<Expr>)),
        babel::highest(f) >= f[j].0,
    decreases f.len(),
{
    if j < f.len() - 1 {
        let d = f.drop_last();
        assert(d[j] == f[j]);
        assert forall|a: int, b: int| 0 <= a < b < d.len() implies d[a].0 != d[b].0 by {
            assert(f[a].0 != f[b].0);
        }
        lemma_slot(d, j);
        assert(f[j].0 != f[f.len() - 1].0);
    }
}

proof fn lemma_slot_back(f: Seq<(int, Target)>, n: int) -> (j: int)
    requires
        babel::slot_of(f, n) is Some,
    ensures
        0 <= j < f.len(),
        f[j].0 == n,
        babel::slot_of(f, n) == Some((f[j].1, None::<Expr>)),
    decreases f.len(),
{
    if f.last().0 == n {
        f.len() - 1
    } else {
        lemma_slot_back(f.drop_last(), n)
    }
}

proof fn lemma_read(s: Stmt, tmp: Seq<char>, n: int, x: Target)
    requires
        babel::read_of(s, tmp) == Some((x, n)),
    ensures
        reads_element(s, tmp, n, x),
        0 <= n,
{
}

/// An array pattern recovered from a copy stands for the reads of the copy: what is copied is what
/// the pattern takes apart, and each of its targets is one that the element of that index was read
/// into.
pub proof fn lemma_array_pattern_reads_the_elements(w: Seq<Atom>, t: Seq<Stmt>, i: int, n: int)
    requires
        0 <= i < t.len(),
        match babel::fold(w, t, i) {
            Some(Stmt::Assign { target: Target::DestructuringArray(f), .. }) => 0 <= n < f.len()
                && f[n] is Some,
            _ => false,
        },
    ensures
        match babel::fold(w, t, i) {
            Some(Stmt::Assign { target: Target::DestructuringArray(f), value }) => {
                &&& bindings::binding(t[i]) matches Some(b) && (b.1 matches Expr::Call {
                    arguments,
                    ..
                } && arguments.len() > 0 && value == arguments[0] && exists|k: int|
                    i < k < t.len() && #[trigger] reads_element(t[k], b.0, n, f[n]->Some_0.0))
            },
            _ => false,
        },
{
    let a = babel::anchor(t[i])->Some_0;
    let to = babel::run_end(t, i + 1, a.0);
    babel::lemma_run_end(t, i + 1, a.0);
    let f = babel::found(t, i + 1, to, a.0);
    let j = lemma_slot_back(f, n);
    let k = lemma_found_back(t, i + 1, to, a.0, j);
    lemma_read(t[k], a.0, n, f[j].1);
    let made = babel::pattern(f);
    assert(made[n] == babel::slot_of(f, n));
    let b = bindings::binding(t[i])->Some_0;
    assert(reads_element(t[k], b.0, n, made[n]->Some_0.0));
    assert(babel::fold(w, t, i) == Some(
        Stmt::Assign { target: Target::DestructuringArray(made), value: a.1 },
    ));
    assert(b.1 is Call);
}

/// Every read of the copy up to the end of its reads is a target of the pattern, at its index.
pub proof fn lemma_reads_are_in_the_pattern(w: Seq<Atom>, t: Seq<Stmt>, i: int, k: int)
    requires
        0 <= i < k < t.len(),
        babel::fold(w, t, i) is Some,
        k < babel::run_end(t, i + 1, babel::anchor_name(t[i])),
        babel::read_of(t[k], babel::anchor_name(t[i])) is Some,
    ensures
        match (babel::fold(w, t, i), babel::read_of(t[k], babel::anchor_name(t[i]))) {
            (Some(Stmt::Assign { target: Target::DestructuringArray(f), .. }), Some((x, n))) => 0
                <= n < f.len() && f[n] == Some((x, None::<Expr>)) && reads_element(
                t[k],
                babel::anchor_name(t[i]),
                n,
                x,
            ),
            _ => false,
        },
{
    let tmp = babel::anchor_name(t[i]);
    let to = babel::run_end(t, i + 1, tmp);
    let (x, n) = babel::read_of(t[k], tmp)->Some_0;
    let f = babel::found(t, i + 1, to, tmp);
    lemma_found(t, i + 1, to, tmp, k, n, x);
    let j = choose|j: int| 0 <= j < f.len() && f[j] == (n, x);
    lemma_slot(f, j);
    lemma_read(t[k], tmp, n, x);
}

/// The patterns of every list in a statement are recovered, and the rest of it stays. The body of a
/// `do` loop is left as it is, and a `for` loop has them recovered in its head too.
pub proof fn lemma_patterns_of_every_list(s: Stmt)
    ensures
        !(s is DoWhile || s is For) ==> bodies::within(
            super::detected_nested(s),
            s,
            |b: Seq<Stmt>| super::detected(b),
        ),
        s is DoWhile ==> super::detected_nested(s) == s,
        s matches Stmt::For { init, condition, update, body } ==> super::detected_nested(s) == (
        Stmt::For {
            init: match init {
                Some(x) => Some(Box::new(super::detected_nested(*x))),
                None => None,
            },
            condition,
            update: match update {
                Some(x) => Some(Box::new(super::detected_nested(*x))),
                None => None,
            },
            body: super::detected(body),
        }),
{
    if let Stmt::For { init, update, .. } = s {
        assert(super::detected_opt(init) == match init {
            Some(x) => Some(Box::new(super::detected_nested(*x))),
            None => None,
        });
        assert(super::detected_opt(update) == match update {
            Some(x) => Some(Box::new(super::detected_nested(*x))),
            None => None,
        });
    } else if !(s is DoWhile) {
        let f = |b: Seq<Stmt>| super::detected(b);
        let t = super::detected_nested(s);
        if let Stmt::Switch { cases, default, .. } = s {
            let made = super::detected_nested_cases(cases);
            let rest = super::detected_nested_default(default);
            assert forall|i: int| 0 <= i < cases.len() implies #[trigger] made[i] == (
                cases[i].0,
                f(cases[i].1),
            ) by {
                assert(made[i] == super::detected_nested_case(cases[i]));
            }
            assert(Seq::new(made.len(), |i: int| (made[i].0, Seq::<Stmt>::empty())) =~= Seq::new(
                cases.len(),
                |i: int| (cases[i].0, Seq::<Stmt>::empty()),
            ));
        }
        assert(bodies::bodies(t) =~= bodies::bodies(s).map_values(f));
    }
}

} // verus!
