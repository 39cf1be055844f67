//! The properties of an element are those of the literal that its variable holds.

use super::lower;
use super::props;
use super::props::Calls;
use crate::ir::model::{Expr, Key, Stmt, Target, Val};
use crate::ir::nested;
use crate::ir::visit;
use crate::text;
use vstd::prelude::*;

verus! {

/// Whether a statement binds a name to a value.
pub open spec fn binds(s: Stmt, n: Seq<char>, e: Expr) -> bool {
    match s {
        Stmt::Let { name, value, .. } => name == n && value == e,
        Stmt::Assign { target: Target::Variable(name), value } => name == n && value == e,
        _ => false,
    }
}

/// Whether an expression is a variable or a path of members that starts at it.
pub open spec fn starts_at(e: Expr, n: Seq<char>) -> bool
    decreases e,
{
    match e {
        Expr::Value(v) => v == Val::Variable(n),
        Expr::Member { object, .. } => starts_at(*object, n),
        _ => false,
    }
}

/// Whether a statement itself gives a variable another value, or writes into its object.
pub open spec fn writes_itself(s: Stmt, n: Seq<char>) -> bool {
    match s {
        Stmt::Let { name, .. } => name == n,
        Stmt::Assign { target: Target::Variable(m), .. } => m == n,
        Stmt::Assign { target: Target::Member { object, .. }, .. } => starts_at(object, n),
        Stmt::Assign { target: Target::Index { object, .. }, .. } => starts_at(object, n),
        Stmt::ForOf { variable, .. } => variable == n,
        Stmt::ForIn { variable, .. } => variable == n,
        Stmt::Class { name, .. } => name == n,
        Stmt::TryCatch { catch_param, .. } => catch_param == Some(n),
        _ => false,
    }
}

/// Whether an expression assigns a variable or writes into its object.
pub open spec fn assigns(e: Expr, n: Seq<char>) -> bool {
    match e {
        Expr::Assignment { target, .. } => starts_at(*target, n),
        _ => false,
    }
}

/// Whether a statement, one nested in it or an expression in it writes a variable or its object.
pub open spec fn touches(s: Stmt, n: Seq<char>) -> bool {
    ||| exists|i: int|
        0 <= i < nested::flat_stmt(s).len() && writes_itself(#[trigger] nested::flat_stmt(s)[i], n)
    ||| exists|i: int|
        0 <= i < visit::stmt_visits(s).len() && assigns(#[trigger] visit::stmt_visits(s)[i], n)
}

/// Whether the statement at a position binds a name to an object literal, and nothing after it
/// touches the name.
pub open spec fn settled_at(t: Seq<Stmt>, i: int, n: Seq<char>, e: Expr) -> bool {
    &&& 0 <= i < t.len()
    &&& e is Object
    &&& binds(t[i], n, e)
    &&& forall|j: int| i < j < t.len() ==> !touches(#[trigger] t[j], n)
}

proof fn lemma_base(e: Expr, n: Seq<char>)
    ensures
        starts_at(e, n) == (props::base(e) == Some(n)),
    decreases e,
{
    if let Expr::Member { object, .. } = e {
        lemma_base(*object, n);
    }
}

proof fn lemma_base_names(e: Expr, n: Seq<char>)
    requires
        starts_at(e, n),
    ensures
        props::base_names(e).contains(n),
{
    lemma_base(e, n);
    assert(seq![n][0] == n);
}

proof fn lemma_own(s: Stmt, n: Seq<char>)
    requires
        writes_itself(s, n),
    ensures
        props::own_writes(s).contains(n),
{
    assert(seq![n][0] == n);
    match s {
        Stmt::Assign { target: Target::Member { object, .. }, .. } => lemma_base_names(object, n),
        Stmt::Assign { target: Target::Index { object, .. }, .. } => lemma_base_names(object, n),
        _ => {},
    }
}

proof fn lemma_all_own(s: Seq<Stmt>, i: int, n: Seq<char>)
    requires
        0 <= i < s.len(),
        writes_itself(s[i], n),
    ensures
        props::all_own_writes(s).contains(n),
    decreases s.len(),
{
    let a = props::all_own_writes(s.drop_last());
    let b = props::own_writes(s.last());
    if i < s.len() - 1 {
        assert(s.drop_last()[i] == s[i]);
        lemma_all_own(s.drop_last(), i, n);
        let k = choose|k: int| 0 <= k < a.len() && a[k] == n;
        assert((a + b)[k] == n);
    } else {
        lemma_own(s[i], n);
        let k = choose|k: int| 0 <= k < b.len() && b[k] == n;
        assert((a + b)[a.len() + k] == n);
    }
}

proof fn lemma_expr_writes(s: Seq<Expr>, i: int, n: Seq<char>)
    requires
        0 <= i < s.len(),
        assigns(s[i], n),
    ensures
        props::expr_writes(s).contains(n),
    decreases s.len(),
{
    let a = props::expr_writes(s.drop_last());
    if i < s.len() - 1 {
        assert(s.drop_last()[i] == s[i]);
        lemma_expr_writes(s.drop_last(), i, n);
        if let Expr::Assignment { target, .. } = s.last() {
            let b = props::base_names(*target);
            let k = choose|k: int| 0 <= k < a.len() && a[k] == n;
            assert((a + b)[k] == n);
        }
    } else if let Expr::Assignment { target, .. } = s.last() {
        let b = props::base_names(*target);
        lemma_base_names(*target, n);
        let k = choose|k: int| 0 <= k < b.len() && b[k] == n;
        assert((a + b)[a.len() + k] == n);
    }
}

proof fn lemma_touches(s: Stmt, n: Seq<char>)
    requires
        touches(s, n),
    ensures
        props::writes(s).contains(n),
{
    let f = nested::flat_stmt(s);
    let v = visit::stmt_visits(s);
    let a = props::all_own_writes(f);
    let b = props::expr_writes(v);
    if exists|i: int| 0 <= i < f.len() && writes_itself(#[trigger] f[i], n) {
        let i = choose|i: int| 0 <= i < f.len() && writes_itself(#[trigger] f[i], n);
        lemma_all_own(f, i, n);
        let k = choose|k: int| 0 <= k < a.len() && a[k] == n;
        assert((a + b)[k] == n);
    } else {
        let i = choose|i: int| 0 <= i < v.len() && assigns(#[trigger] v[i], n);
        lemma_expr_writes(v, i, n);
        let k = choose|k: int| 0 <= k < b.len() && b[k] == n;
        assert((a + b)[a.len() + k] == n);
    }
}

proof fn lemma_binding(s: Stmt, name: Seq<char>, v: Expr, n: Seq<char>)
    requires
        binds(s, name, v),
        name != n,
        !props::expr_writes(visit::expr_visits(v)).contains(n),
    ensures
        !touches(s, n),
{
    let f = nested::flat_stmt(s);
    let w = visit::stmt_visits(s);
    assert(f =~= seq![s]);
    assert(w =~= visit::expr_visits(v)) by {
        if let Stmt::Assign { target, .. } = s {
            assert(visit::target_visits(target) =~= Seq::<Expr>::empty());
        }
    }
    if exists|i: int| 0 <= i < w.len() && assigns(#[trigger] w[i], n) {
        let i = choose|i: int| 0 <= i < w.len() && assigns(#[trigger] w[i], n);
        lemma_expr_writes(w, i, n);
    }
}

/// What is recorded for a name is the object literal that the list bound to it last, and nothing
/// after that binding touches the name.
pub proof fn lemma_record_is_the_last_literal(c: Calls, s: Seq<Stmt>, n: Seq<char>) -> (i: int)
    requires
        props::known(props::run(c, s).1, n) is Some,
    ensures
        settled_at(props::run(c, s).0, i, n, props::known(props::run(c, s).1, n)->Some_0),
    decreases s.len(),
{
    if s.len() == 0 {
        0
    } else {
        let before = props::run(c, s.drop_last());
        let o = before.1;
        let x = props::step(c, o, s.last());
        let t = props::run(c, s).0;
        let e = props::known(x.1, n)->Some_0;
        assert(t == before.0.push(x.0));
        let named = match s.last() {
            Stmt::Let { name, value, .. } => Some((name, props::settled(c, o, value))),
            Stmt::Assign { target: Target::Variable(name), value } => Some(
                (name, props::settled(c, o, value)),
            ),
            _ => None,
        };
        match named {
            Some((name, v)) => {
                let ew = props::expr_writes(visit::expr_visits(v));
                let first = props::without(o, ew);
                let kept = props::without(first, seq![name]);
                assert(x.1 == props::bound(o, name, v));
                assert(binds(x.0, name, v));
                props::lemma_written_records_go(first, seq![name], n);
                props::lemma_written_records_go(o, ew, n);
                assert(kept.push((name, v)).drop_last() =~= kept);
                if name == n {
                    assert(seq![name][0] == n);
                    assert(t[t.len() - 1] == x.0);
                    t.len() - 1
                } else {
                    let i = lemma_record_is_the_last_literal(c, s.drop_last(), n);
                    lemma_binding(x.0, name, v, n);
                    assert forall|j: int| i < j < t.len() implies !touches(#[trigger] t[j], n) by {
                        if j < before.0.len() {
                            assert(t[j] == before.0[j]);
                        }
                    }
                    i
                }
            },
            None => {
                props::lemma_written_records_go(o, props::writes(x.0), n);
                let i = lemma_record_is_the_last_literal(c, s.drop_last(), n);
                if touches(x.0, n) {
                    lemma_touches(x.0, n);
                }
                assert forall|j: int| i < j < t.len() implies !touches(#[trigger] t[j], n) by {
                    if j < before.0.len() {
                        assert(t[j] == before.0[j]);
                    }
                }
                i
            },
        }
    }
}

/// Whether a name is that of a factory, with or without an underscore before it.
pub open spec fn named_as(n: Seq<char>, f: Seq<char>) -> bool {
    n == f || n == "_"@ + f
}

pub open spec fn factory_name(n: Seq<char>) -> bool {
    ||| named_as(n, "createElement"@)
    ||| named_as(n, "jsx"@)
    ||| named_as(n, "jsxs"@)
    ||| named_as(n, "jsxDEV"@)
    ||| named_as(n, "jsxsDEV"@)
    ||| named_as(n, "jsxDev"@)
    ||| named_as(n, "jsxsDev"@)
}

/// Whether a callee makes elements: it is a factory, or a member that is one.
pub open spec fn makes_elements(callee: Expr) -> bool {
    match callee {
        Expr::Value(Val::Variable(n)) => factory_name(n),
        Expr::Member { property: Key::Ident(n), .. } => factory_name(n),
        Expr::Member { property: Key::String(n), .. } => factory_name(n),
        _ => false,
    }
}

proof fn lemma_named(n: Seq<char>, f: Seq<char>)
    requires
        f.len() > 0,
        f[0] != '_',
        named_as(n, f),
    ensures
        lower::without_underscore(n) == f,
{
    reveal_strlit("_");
    let u = "_"@;
    if n == u + f {
        assert((u + f).subrange(0, 1) =~= u);
        assert((u + f).subrange(1, n.len() as int) =~= f);
        assert(text::occurs_at(n, u, 0));
    }
    if text::occurs_at(n, u, 0) && n == f {
        assert(n.subrange(0, 1)[0] == u[0]);
    }
}

/// Every factory makes elements, whatever it is a member of.
pub proof fn lemma_factories_make_elements(callee: Expr)
    requires
        makes_elements(callee),
    ensures
        lower::jsx_callee(callee),
{
    reveal_strlit("createElement");
    reveal_strlit("jsx");
    reveal_strlit("jsxs");
    reveal_strlit("jsxDEV");
    reveal_strlit("jsxsDEV");
    reveal_strlit("jsxDev");
    reveal_strlit("jsxsDev");
    let n = match callee {
        Expr::Value(Val::Variable(n)) => n,
        Expr::Member { property: Key::Ident(n), .. } => n,
        Expr::Member { property: Key::String(n), .. } => n,
        _ => Seq::empty(),
    };
    if named_as(n, "createElement"@) {
        lemma_named(n, "createElement"@);
    }
    if named_as(n, "jsx"@) {
        lemma_named(n, "jsx"@);
    }
    if named_as(n, "jsxs"@) {
        lemma_named(n, "jsxs"@);
    }
    if named_as(n, "jsxDEV"@) {
        lemma_named(n, "jsxDEV"@);
    }
    if named_as(n, "jsxsDEV"@) {
        lemma_named(n, "jsxsDEV"@);
    }
    if named_as(n, "jsxDev"@) {
        lemma_named(n, "jsxDev"@);
    }
    if named_as(n, "jsxsDev"@) {
        lemma_named(n, "jsxsDev"@);
    }
}

/// The variable that a factory call has for its properties is replaced by what is recorded for it;
/// the other arguments stay in their places.
pub proof fn lemma_properties_are_the_record(
    o: Seq<(Seq<char>, Expr)>,
    callee: Expr,
    args: Seq<Expr>,
    n: Seq<char>,
    i: int,
)
    requires
        makes_elements(callee),
        args.len() >= 2,
        lower::tag(args[0]) is Some,
        args[1] == Expr::Value(Val::Variable(n)),
        props::known(o, n) is Some,
        0 <= i < args.len(),
    ensures
        match props::subst(
            o,
            Seq::empty(),
            Expr::Call { callee: Box::new(callee), arguments: args },
        ) {
            Expr::Call { callee: f, arguments } => arguments.len() == args.len() && *f
                == props::subst(o, Seq::empty(), callee) && arguments[i] == if i == 1 {
                props::subst(o, seq![n], props::known(o, n)->Some_0)
            } else {
                props::subst(o, Seq::empty(), args[i])
            },
            _ => false,
        },
{
    let none = Seq::<Seq<char>>::empty();
    assert(none.push(n) =~= seq![n]);
    props::lemma_left(o, none, n);
    lemma_factories_make_elements(callee);
    let plain = props::subst_exprs(o, none, args);
    assert(plain[i] == props::subst(o, none, args[i]));
    assert(props::expansion(o, none, args[1]) == Some((n, props::known(o, n)->Some_0)));
    let value = props::subst(o, none.push(n), props::known(o, n)->Some_0);
    assert(props::subst(o, none, Expr::Call { callee: Box::new(callee), arguments: args }) == (
    Expr::Call {
        callee: Box::new(props::subst(o, none, callee)),
        arguments: plain.update(1, value),
    }));
}

} // verus!
