//! What holds of declaring the variables of a function twice.

use super::scan;
use super::Scope;
use crate::ir::model::{Const, Expr, Stmt, Target, Val};
use crate::ir::occurs;
use crate::ir::occurs::Atom;
use crate::names;
use vstd::prelude::*;

verus! {

/// Whether a declaration took the place of an assignment of a name.
spec fn declaration_of(names: Set<Seq<char>>, n: Seq<char>, value: Expr, t: Stmt) -> bool {
    t matches Stmt::Let { name, value: v, .. } && name == n && v == value && names.contains(n)
}

/// Whether a statement is what declarations of some names left of another, bodies aside.
spec fn kin(names: Set<Seq<char>>, s: Stmt, t: Stmt) -> bool {
    match s {
        Stmt::Assign { target: Target::Variable(n), value } => t == s || declaration_of(
            names,
            n,
            value,
            t,
        ),
        Stmt::Assign { target: Target::Register(r), value } => t == s || declaration_of(
            names,
            names::register_name(r),
            value,
            t,
        ),
        Stmt::Assign { .. } => t == s,
        Stmt::Let { .. } => t == s,
        _ => !(t is Assign) && !(t is Let) && scan::own_atoms(t) == scan::own_atoms(s),
    }
}

spec fn all_kin(names: Set<Seq<char>>, a: Seq<(Stmt, bool)>, b: Seq<(Stmt, bool)>) -> bool {
    &&& a.len() == b.len()
    &&& forall|i: int|
        0 <= i < a.len() ==> kin(names, (#[trigger] a[i]).0, b[i].0) && a[i].1 == b[i].1
}

proof fn lemma_kin_both(
    names: Set<Seq<char>>,
    a: Seq<(Stmt, bool)>,
    b: Seq<(Stmt, bool)>,
    x: Seq<(Stmt, bool)>,
    y: Seq<(Stmt, bool)>,
)
    requires
        all_kin(names, a, b),
        all_kin(names, x, y),
    ensures
        all_kin(names, a + x, b + y),
{
    assert forall|i: int| 0 <= i < (a + x).len() implies kin(
        names,
        (#[trigger] (a + x)[i]).0,
        (b + y)[i].0,
    ) && (a + x)[i].1 == (b + y)[i].1 by {
        if i < a.len() {
            assert(kin(names, a[i].0, b[i].0));
        } else {
            assert(kin(names, x[i - a.len()].0, y[i - a.len()].0));
        }
    }
}

proof fn lemma_kin_one(names: Set<Seq<char>>, s: Stmt, t: Stmt, l: bool)
    requires
        kin(names, s, t),
    ensures
        all_kin(names, seq![(s, l)], seq![(t, l)]),
{
}

/// The names declared so far stay declared.
proof fn lemma_grows_stmt(c: Scope, d: Set<Seq<char>>, s: Stmt)
    ensures
        d.subset_of(super::dec_stmt(c, d, s).1),
    decreases s,
{
    match s {
        Stmt::If { then_body, else_body, .. } => {
            lemma_grows_list(c, d, then_body);
            lemma_grows_list(c, super::dec_list(c, d, then_body).1, else_body);
        },
        Stmt::While { body, .. } => lemma_grows_list(c, d, body),
        Stmt::DoWhile { body, .. } => lemma_grows_list(c, d, body),
        Stmt::For { body, .. } => lemma_grows_list(c, d, body),
        Stmt::ForIn { body, .. } => lemma_grows_list(c, d, body),
        Stmt::ForOf { body, .. } => lemma_grows_list(c, d, body),
        Stmt::Block(body) => lemma_grows_list(c, d, body),
        Stmt::TryCatch { try_body, catch_body, finally_body, .. } => {
            let x = super::dec_list(c, d, try_body);
            let y = super::dec_list(c, x.1, catch_body);
            lemma_grows_list(c, d, try_body);
            lemma_grows_list(c, x.1, catch_body);
            lemma_grows_list(c, y.1, finally_body);
        },
        Stmt::Switch { cases, default, .. } => {
            lemma_grows_cases(c, d, cases);
            if let Some(b) = default {
                lemma_grows_list(c, super::dec_cases(c, d, cases).1, b);
            }
        },
        _ => {},
    }
}

proof fn lemma_grows_list(c: Scope, d: Set<Seq<char>>, s: Seq<Stmt>)
    ensures
        d.subset_of(super::dec_list(c, d, s).1),
    decreases s,
{
    if s.len() > 0 {
        lemma_grows_list(c, d, s.drop_last());
        lemma_grows_stmt(c, super::dec_list(c, d, s.drop_last()).1, s.last());
    }
}

proof fn lemma_grows_cases(c: Scope, d: Set<Seq<char>>, s: Seq<(Expr, Seq<Stmt>)>)
    ensures
        d.subset_of(super::dec_cases(c, d, s).1),
    decreases s,
{
    if s.len() > 0 {
        lemma_grows_cases(c, d, s.drop_last());
        lemma_grows_list(c, super::dec_cases(c, d, s.drop_last()).1, s.last().1);
    }
}

/// The statements of a list, bodies included, are kin to what declarations leave of them.
proof fn lemma_kin_stmt(c: Scope, d: Set<Seq<char>>, s: Stmt, names: Set<Seq<char>>, l: bool)
    requires
        super::dec_stmt(c, d, s).1.subset_of(names),
    ensures
        all_kin(names, scan::scoped_stmt(s, l), scan::scoped_stmt(super::dec_stmt(c, d, s).0, l)),
    decreases s, 0nat,
{
    let t = super::dec_stmt(c, d, s).0;
    assert(kin(names, s, t));
    lemma_kin_one(names, s, t, l);
    let none = Seq::<(Stmt, bool)>::empty();
    let a = seq![(s, l)];
    let b = seq![(t, l)];
    match s {
        Stmt::If { then_body, else_body, .. } => {
            let x = super::dec_list(c, d, then_body);
            let y = super::dec_list(c, x.1, else_body);
            lemma_grows_list(c, x.1, else_body);
            lemma_kin_list(c, d, then_body, names, l);
            lemma_kin_list(c, x.1, else_body, names, l);
            lemma_kin_both(
                names,
                scan::scoped(then_body, l),
                scan::scoped(x.0, l),
                scan::scoped(else_body, l),
                scan::scoped(y.0, l),
            );
            lemma_kin_both(
                names,
                a,
                b,
                scan::scoped(then_body, l) + scan::scoped(else_body, l),
                scan::scoped(x.0, l) + scan::scoped(y.0, l),
            );
        },
        Stmt::While { body, .. } => lemma_kin_body(c, d, s, body, names, l, true),
        Stmt::DoWhile { body, .. } => lemma_kin_body(c, d, s, body, names, l, true),
        Stmt::For { body, .. } => lemma_kin_body(c, d, s, body, names, l, true),
        Stmt::ForIn { body, .. } => lemma_kin_body(c, d, s, body, names, l, true),
        Stmt::ForOf { body, .. } => lemma_kin_body(c, d, s, body, names, l, true),
        Stmt::Block(body) => lemma_kin_body(c, d, s, body, names, l, l),
        Stmt::TryCatch { try_body, catch_body, finally_body, .. } => {
            let x = super::dec_list(c, d, try_body);
            let y = super::dec_list(c, x.1, catch_body);
            let z = super::dec_list(c, y.1, finally_body);
            lemma_grows_list(c, x.1, catch_body);
            lemma_grows_list(c, y.1, finally_body);
            lemma_kin_list(c, d, try_body, names, l);
            lemma_kin_list(c, x.1, catch_body, names, l);
            lemma_kin_list(c, y.1, finally_body, names, l);
            lemma_kin_both(
                names,
                scan::scoped(try_body, l),
                scan::scoped(x.0, l),
                scan::scoped(catch_body, l),
                scan::scoped(y.0, l),
            );
            lemma_kin_both(
                names,
                scan::scoped(try_body, l) + scan::scoped(catch_body, l),
                scan::scoped(x.0, l) + scan::scoped(y.0, l),
                scan::scoped(finally_body, l),
                scan::scoped(z.0, l),
            );
            lemma_kin_both(
                names,
                a,
                b,
                scan::scoped(try_body, l) + scan::scoped(catch_body, l) + scan::scoped(
                    finally_body,
                    l,
                ),
                scan::scoped(x.0, l) + scan::scoped(y.0, l) + scan::scoped(z.0, l),
            );
        },
        Stmt::Switch { cases, default, .. } => {
            let x = super::dec_cases(c, d, cases);
            match default {
                Some(body) => {
                    let y = super::dec_list(c, x.1, body);
                    lemma_grows_list(c, x.1, body);
                    lemma_kin_cases(c, d, cases, names, l);
                    lemma_kin_list(c, x.1, body, names, l);
                    lemma_kin_both(
                        names,
                        scan::scoped_cases(cases, l),
                        scan::scoped_cases(x.0, l),
                        scan::scoped(body, l),
                        scan::scoped(y.0, l),
                    );
                    lemma_kin_both(
                        names,
                        a,
                        b,
                        scan::scoped_cases(cases, l) + scan::scoped(body, l),
                        scan::scoped_cases(x.0, l) + scan::scoped(y.0, l),
                    );
                },
                None => {
                    lemma_kin_cases(c, d, cases, names, l);
                    assert(scan::scoped_cases(cases, l) + none =~= scan::scoped_cases(cases, l));
                    assert(scan::scoped_cases(x.0, l) + none =~= scan::scoped_cases(x.0, l));
                    lemma_kin_both(
                        names,
                        a,
                        b,
                        scan::scoped_cases(cases, l),
                        scan::scoped_cases(x.0, l),
                    );
                },
            }
        },
        _ => {
            assert(a + none =~= a);
            assert(b + none =~= b);
        },
    }
}

/// The same of a statement with one body.
proof fn lemma_kin_body(
    c: Scope,
    d: Set<Seq<char>>,
    s: Stmt,
    body: Seq<Stmt>,
    names: Set<Seq<char>>,
    l: bool,
    inner: bool,
)
    requires
        super::dec_list(c, d, body).1.subset_of(names),
        kin(names, s, super::dec_stmt(c, d, s).0),
    ensures
        all_kin(
            names,
            seq![(s, l)] + scan::scoped(body, inner),
            seq![(super::dec_stmt(c, d, s).0, l)] + scan::scoped(
                super::dec_list(c, d, body).0,
                inner,
            ),
        ),
    decreases body, 1nat,
{
    lemma_kin_one(names, s, super::dec_stmt(c, d, s).0, l);
    lemma_kin_list(c, d, body, names, inner);
    lemma_kin_both(
        names,
        seq![(s, l)],
        seq![(super::dec_stmt(c, d, s).0, l)],
        scan::scoped(body, inner),
        scan::scoped(super::dec_list(c, d, body).0, inner),
    );
}

proof fn lemma_kin_list(c: Scope, d: Set<Seq<char>>, s: Seq<Stmt>, names: Set<Seq<char>>, l: bool)
    requires
        super::dec_list(c, d, s).1.subset_of(names),
    ensures
        all_kin(names, scan::scoped(s, l), scan::scoped(super::dec_list(c, d, s).0, l)),
    decreases s, 0nat,
{
    if s.len() > 0 {
        let a = super::dec_list(c, d, s.drop_last());
        let b = super::dec_stmt(c, a.1, s.last());
        lemma_grows_stmt(c, a.1, s.last());
        lemma_kin_list(c, d, s.drop_last(), names, l);
        lemma_kin_stmt(c, a.1, s.last(), names, l);
        assert(a.0.push(b.0).drop_last() =~= a.0);
        lemma_kin_both(
            names,
            scan::scoped(s.drop_last(), l),
            scan::scoped(a.0, l),
            scan::scoped_stmt(s.last(), l),
            scan::scoped_stmt(b.0, l),
        );
    }
}

proof fn lemma_kin_cases(
    c: Scope,
    d: Set<Seq<char>>,
    s: Seq<(Expr, Seq<Stmt>)>,
    names: Set<Seq<char>>,
    l: bool,
)
    requires
        super::dec_cases(c, d, s).1.subset_of(names),
    ensures
        all_kin(names, scan::scoped_cases(s, l), scan::scoped_cases(super::dec_cases(c, d, s).0, l)),
    decreases s, 0nat,
{
    if s.len() > 0 {
        let a = super::dec_cases(c, d, s.drop_last());
        let b = super::dec_list(c, a.1, s.last().1);
        lemma_grows_list(c, a.1, s.last().1);
        lemma_kin_cases(c, d, s.drop_last(), names, l);
        lemma_kin_list(c, a.1, s.last().1, names, l);
        assert(a.0.push((s.last().0, b.0)).drop_last() =~= a.0);
        lemma_kin_both(
            names,
            scan::scoped_cases(s.drop_last(), l),
            scan::scoped_cases(a.0, l),
            scan::scoped(s.last().1, l),
            scan::scoped(b.0, l),
        );
    }
}

proof fn lemma_rest_kin(names: Set<Seq<char>>, a: Seq<(Stmt, bool)>, b: Seq<(Stmt, bool)>)
    requires
        all_kin(names, a, b),
        a.len() > 0,
    ensures
        all_kin(names, a.drop_last(), b.drop_last()),
        kin(names, a.last().0, b.last().0),
        a.last().1 == b.last().1,
{
    assert(kin(names, a[a.len() - 1].0, b[a.len() - 1].0));
    assert forall|i: int| 0 <= i < a.drop_last().len() implies kin(
        names,
        (#[trigger] a.drop_last()[i]).0,
        b.drop_last()[i].0,
    ) && a.drop_last()[i].1 == b.drop_last()[i].1 by {
        assert(kin(names, a[i].0, b[i].0));
    }
}

/// What was declared stays declared; a name that got no declaration is assigned where it was, and
/// referred to nowhere else.
proof fn lemma_kin_names(
    names: Set<Seq<char>>,
    a: Seq<(Stmt, bool)>,
    b: Seq<(Stmt, bool)>,
    n: Seq<char>,
)
    requires
        all_kin(names, a, b),
    ensures
        scan::declared_at(a, n) ==> scan::declared_at(b, n),
        scan::let_at(a, n) ==> scan::let_at(b, n),
        !names.contains(n) ==> scan::assigned_at(a, true, n) == scan::assigned_at(b, true, n),
        !names.contains(n) ==> scan::assigned_at(a, false, n) == scan::assigned_at(b, false, n),
        !names.contains(n) && scan::referred_at(b, n) ==> scan::referred_at(a, n),
    decreases a.len(),
{
    if a.len() > 0 {
        lemma_rest_kin(names, a, b);
        lemma_kin_names(names, a.drop_last(), b.drop_last(), n);
        if !names.contains(n) && scan::refers(b.last().0, n) {
            lemma_kin_refers(names, a.last().0, b.last().0, n);
        }
    }
}

proof fn lemma_kin_refers(names: Set<Seq<char>>, s: Stmt, t: Stmt, n: Seq<char>)
    requires
        kin(names, s, t),
        !names.contains(n),
        scan::refers(t, n),
    ensures
        scan::refers(s, n),
{
    let x = scan::own_atoms(t);
    let y = scan::own_atoms(s);
    let i = choose|i: int| 0 <= i < x.len() && #[trigger] scan::referred(x[i]) == Some(n);
    if let Stmt::Assign { value, .. } = s {
        if t != s {
            let e = occurs::expr_atoms(value);
            assert(i > 0);
            assert(x[i] == e[i - 1]);
            assert(y[i] == e[i - 1]);
        }
    }
    assert(scan::referred(y[i]) == Some(n));
}

/// The first look at a name in two parts is that in the first that has one.
proof fn lemma_read_first(a: Seq<scan::Glance>, b: Seq<scan::Glance>, n: Seq<char>)
    ensures
        scan::read_first(a + b, n) == match scan::read_first(a, n) {
            Some(x) => Some(x),
            None => scan::read_first(b, n),
        },
    decreases b.len(),
{
    if b.len() > 0 {
        lemma_read_first(a, b.drop_last(), n);
        assert((a + b).drop_last() =~= a + b.drop_last());
    } else {
        assert(a + b =~= a);
    }
}

proof fn lemma_looks_stmt(c: Scope, d: Set<Seq<char>>, s: Stmt, n: Seq<char>)
    requires
        !super::dec_stmt(c, d, s).1.contains(n),
    ensures
        scan::read_first(scan::looks_stmt(super::dec_stmt(c, d, s).0), n) == scan::read_first(
            scan::looks_stmt(s),
            n,
        ),
    decreases s, 0nat,
{
    let t = super::dec_stmt(c, d, s).0;
    match s {
        Stmt::Assign { target: Target::Variable(m), value } => {
            if t != s {
                let v = scan::glances(occurs::expr_atoms(value));
                lemma_one_glance(Atom::WriteVariable(m));
                assert(scan::looks_stmt(t) =~= scan::looks_stmt(s));
            }
        },
        Stmt::Assign { target: Target::Register(r), value } => {
            if t != s {
                let v = scan::glances(occurs::expr_atoms(value));
                let m = names::register_name(r);
                lemma_one_glance(Atom::WriteRegister(r));
                assert(scan::looks_stmt(s) =~= v);
                assert(scan::looks_stmt(t) =~= v.push((m, false)));
                assert(v.push((m, false)).drop_last() =~= v);
            }
        },
        Stmt::If { condition, then_body, else_body } => {
            let x = super::dec_list(c, d, then_body);
            let y = super::dec_list(c, x.1, else_body);
            let v = scan::glances(occurs::expr_atoms(condition));
            lemma_grows_list(c, x.1, else_body);
            lemma_looks_list(c, d, then_body, n);
            lemma_looks_list(c, x.1, else_body, n);
            lemma_read_first(v, scan::looks(then_body), n);
            lemma_read_first(v, scan::looks(x.0), n);
            lemma_read_first(v + scan::looks(then_body), scan::looks(else_body), n);
            lemma_read_first(v + scan::looks(x.0), scan::looks(y.0), n);
        },
        Stmt::While { condition, body } => {
            let v = scan::glances(occurs::expr_atoms(condition));
            lemma_looks_behind(c, d, v, body, n);
        },
        Stmt::DoWhile { body, condition } => {
            let v = scan::glances(occurs::expr_atoms(condition));
            lemma_looks_list(c, d, body, n);
            lemma_read_first(scan::looks(body), v, n);
            lemma_read_first(scan::looks(super::dec_list(c, d, body).0), v, n);
        },
        Stmt::For { init, condition, update, body } => {
            let v = scan::looks_opt(init) + scan::glances(occurs::opt_expr_atoms(condition))
                + scan::looks_opt(update);
            lemma_looks_behind(c, d, v, body, n);
        },
        Stmt::ForIn { variable, object, body } => {
            let v = scan::glances(occurs::expr_atoms(object)) + seq![(variable, false)];
            lemma_looks_behind(c, d, v, body, n);
        },
        Stmt::ForOf { variable, iterable, body } => {
            let v = scan::glances(occurs::expr_atoms(iterable)) + seq![(variable, false)];
            lemma_looks_behind(c, d, v, body, n);
        },
        Stmt::Block(body) => lemma_looks_list(c, d, body, n),
        Stmt::TryCatch { try_body, catch_body, finally_body, .. } => {
            let x = super::dec_list(c, d, try_body);
            let y = super::dec_list(c, x.1, catch_body);
            let z = super::dec_list(c, y.1, finally_body);
            lemma_grows_list(c, x.1, catch_body);
            lemma_grows_list(c, y.1, finally_body);
            lemma_looks_list(c, d, try_body, n);
            lemma_looks_list(c, x.1, catch_body, n);
            lemma_looks_list(c, y.1, finally_body, n);
            lemma_read_first(scan::looks(try_body), scan::looks(catch_body), n);
            lemma_read_first(scan::looks(x.0), scan::looks(y.0), n);
            lemma_read_first(
                scan::looks(try_body) + scan::looks(catch_body),
                scan::looks(finally_body),
                n,
            );
            lemma_read_first(scan::looks(x.0) + scan::looks(y.0), scan::looks(z.0), n);
        },
        Stmt::Switch { discriminant, cases, default } => {
            let x = super::dec_cases(c, d, cases);
            let v = scan::glances(occurs::expr_atoms(discriminant));
            if let Some(body) = default {
                lemma_grows_list(c, x.1, body);
                lemma_looks_list(c, x.1, body, n);
            }
            lemma_looks_cases(c, d, cases, n);
            lemma_read_first(v, scan::looks_cases(cases), n);
            lemma_read_first(v, scan::looks_cases(x.0), n);
            lemma_read_first(v + scan::looks_cases(cases), scan::looks_default(default), n);
            let e = match default {
                Some(body) => Some(super::dec_list(c, x.1, body).0),
                None => None,
            };
            lemma_read_first(v + scan::looks_cases(x.0), scan::looks_default(e), n);
        },
        _ => {},
    }
}

proof fn lemma_one_glance(a: Atom)
    ensures
        a matches Atom::WriteVariable(m) ==> scan::glances(seq![a]) == seq![(m, false)],
        a is WriteRegister ==> scan::glances(seq![a]) == Seq::<scan::Glance>::empty(),
{
    assert(seq![a].drop_last() =~= Seq::empty());
    assert(scan::glances(Seq::<Atom>::empty()) =~= Seq::empty());
    if let Atom::WriteVariable(m) = a {
        assert(scan::glances(seq![a]) =~= seq![(m, false)]);
    }
}

proof fn lemma_looks_behind(
    c: Scope,
    d: Set<Seq<char>>,
    v: Seq<scan::Glance>,
    body: Seq<Stmt>,
    n: Seq<char>,
)
    requires
        !super::dec_list(c, d, body).1.contains(n),
    ensures
        scan::read_first(v + scan::looks(super::dec_list(c, d, body).0), n) == scan::read_first(
            v + scan::looks(body),
            n,
        ),
    decreases body, 1nat,
{
    lemma_looks_list(c, d, body, n);
    lemma_read_first(v, scan::looks(body), n);
    lemma_read_first(v, scan::looks(super::dec_list(c, d, body).0), n);
}

proof fn lemma_looks_list(c: Scope, d: Set<Seq<char>>, s: Seq<Stmt>, n: Seq<char>)
    requires
        !super::dec_list(c, d, s).1.contains(n),
    ensures
        scan::read_first(scan::looks(super::dec_list(c, d, s).0), n) == scan::read_first(
            scan::looks(s),
            n,
        ),
    decreases s, 0nat,
{
    if s.len() > 0 {
        let a = super::dec_list(c, d, s.drop_last());
        let b = super::dec_stmt(c, a.1, s.last());
        lemma_grows_stmt(c, a.1, s.last());
        lemma_looks_list(c, d, s.drop_last(), n);
        lemma_looks_stmt(c, a.1, s.last(), n);
        assert(a.0.push(b.0).drop_last() =~= a.0);
        lemma_read_first(scan::looks(s.drop_last()), scan::looks_stmt(s.last()), n);
        lemma_read_first(scan::looks(a.0), scan::looks_stmt(b.0), n);
    }
}

proof fn lemma_looks_cases(c: Scope, d: Set<Seq<char>>, s: Seq<(Expr, Seq<Stmt>)>, n: Seq<char>)
    requires
        !super::dec_cases(c, d, s).1.contains(n),
    ensures
        scan::read_first(scan::looks_cases(super::dec_cases(c, d, s).0), n) == scan::read_first(
            scan::looks_cases(s),
            n,
        ),
    decreases s, 0nat,
{
    if s.len() > 0 {
        let a = super::dec_cases(c, d, s.drop_last());
        let b = super::dec_list(c, a.1, s.last().1);
        let v = scan::glances(occurs::expr_atoms(s.last().0));
        lemma_grows_list(c, a.1, s.last().1);
        lemma_looks_cases(c, d, s.drop_last(), n);
        lemma_looks_behind(c, a.1, v, s.last().1, n);
        assert(a.0.push((s.last().0, b.0)).drop_last() =~= a.0);
        lemma_read_first(scan::looks_cases(s.drop_last()), v + scan::looks(s.last().1), n);
        lemma_read_first(scan::looks_cases(a.0), v + scan::looks(b.0), n);
    }
}

proof fn lemma_let_both(a: Seq<(Stmt, bool)>, b: Seq<(Stmt, bool)>, n: Seq<char>)
    ensures
        scan::let_at(a + b, n) == (scan::let_at(a, n) || scan::let_at(b, n)),
        scan::declared_at(a + b, n) == (scan::declared_at(a, n) || scan::declared_at(b, n)),
        scan::referred_at(a + b, n) == (scan::referred_at(a, n) || scan::referred_at(b, n)),
        scan::assigned_at(a + b, true, n) == (scan::assigned_at(a, true, n) || scan::assigned_at(
            b,
            true,
            n,
        )),
        scan::assigned_at(a + b, false, n) == (scan::assigned_at(a, false, n) || scan::assigned_at(
            b,
            false,
            n,
        )),
    decreases b.len(),
{
    if b.len() > 0 {
        lemma_let_both(a, b.drop_last(), n);
        assert((a + b).drop_last() =~= a + b.drop_last());
    } else {
        assert(a + b =~= a);
    }
}

/// A name is among those declared only where there is a declaration of it.
proof fn lemma_let_stmt(c: Scope, d: Set<Seq<char>>, s: Stmt, l: bool, n: Seq<char>)
    requires
        super::dec_stmt(c, d, s).1.contains(n),
        !d.contains(n),
    ensures
        scan::let_at(scan::scoped_stmt(super::dec_stmt(c, d, s).0, l), n),
    decreases s, 0nat,
{
    let t = super::dec_stmt(c, d, s).0;
    let own = seq![(t, l)];
    match s {
        Stmt::If { then_body, else_body, .. } => {
            let x = super::dec_list(c, d, then_body);
            let y = super::dec_list(c, x.1, else_body);
            let a = scan::scoped(x.0, l);
            let b = scan::scoped(y.0, l);
            if x.1.contains(n) {
                lemma_let_list(c, d, then_body, l, n);
            } else {
                lemma_let_list(c, x.1, else_body, l, n);
            }
            lemma_let_both(a, b, n);
            lemma_let_both(own, a + b, n);
        },
        Stmt::While { body, .. } => lemma_let_body(c, d, own, body, true, n),
        Stmt::DoWhile { body, .. } => lemma_let_body(c, d, own, body, true, n),
        Stmt::For { body, .. } => lemma_let_body(c, d, own, body, true, n),
        Stmt::ForIn { body, .. } => lemma_let_body(c, d, own, body, true, n),
        Stmt::ForOf { body, .. } => lemma_let_body(c, d, own, body, true, n),
        Stmt::Block(body) => lemma_let_body(c, d, own, body, l, n),
        Stmt::TryCatch { try_body, catch_body, finally_body, .. } => {
            let x = super::dec_list(c, d, try_body);
            let y = super::dec_list(c, x.1, catch_body);
            let z = super::dec_list(c, y.1, finally_body);
            let a = scan::scoped(x.0, l);
            let b = scan::scoped(y.0, l);
            let e = scan::scoped(z.0, l);
            if x.1.contains(n) {
                lemma_let_list(c, d, try_body, l, n);
            } else if y.1.contains(n) {
                lemma_let_list(c, x.1, catch_body, l, n);
            } else {
                lemma_let_list(c, y.1, finally_body, l, n);
            }
            lemma_let_both(a, b, n);
            lemma_let_both(a + b, e, n);
            lemma_let_both(own, a + b + e, n);
        },
        Stmt::Switch { cases, default, .. } => {
            let x = super::dec_cases(c, d, cases);
            let a = scan::scoped_cases(x.0, l);
            if x.1.contains(n) {
                lemma_let_cases(c, d, cases, l, n);
            } else if let Some(body) = default {
                lemma_let_list(c, x.1, body, l, n);
            }
            let e = match default {
                Some(body) => Some(super::dec_list(c, x.1, body).0),
                None => None,
            };
            lemma_let_both(a, scan::scoped_default(e, l), n);
            lemma_let_both(own, a + scan::scoped_default(e, l), n);
        },
        _ => {
            assert(own + Seq::<(Stmt, bool)>::empty() =~= own);
            assert(scan::let_at(own, n));
        },
    }
}

proof fn lemma_let_body(
    c: Scope,
    d: Set<Seq<char>>,
    own: Seq<(Stmt, bool)>,
    body: Seq<Stmt>,
    l: bool,
    n: Seq<char>,
)
    requires
        super::dec_list(c, d, body).1.contains(n),
        !d.contains(n),
    ensures
        scan::let_at(own + scan::scoped(super::dec_list(c, d, body).0, l), n),
    decreases body, 1nat,
{
    lemma_let_list(c, d, body, l, n);
    lemma_let_both(own, scan::scoped(super::dec_list(c, d, body).0, l), n);
}

proof fn lemma_let_list(c: Scope, d: Set<Seq<char>>, s: Seq<Stmt>, l: bool, n: Seq<char>)
    requires
        super::dec_list(c, d, s).1.contains(n),
        !d.contains(n),
    ensures
        scan::let_at(scan::scoped(super::dec_list(c, d, s).0, l), n),
    decreases s, 0nat,
{
    if s.len() > 0 {
        let a = super::dec_list(c, d, s.drop_last());
        let b = super::dec_stmt(c, a.1, s.last());
        if a.1.contains(n) {
            lemma_let_list(c, d, s.drop_last(), l, n);
        } else {
            lemma_let_stmt(c, a.1, s.last(), l, n);
        }
        assert(a.0.push(b.0).drop_last() =~= a.0);
        lemma_let_both(scan::scoped(a.0, l), scan::scoped_stmt(b.0, l), n);
    }
}

proof fn lemma_let_cases(
    c: Scope,
    d: Set<Seq<char>>,
    s: Seq<(Expr, Seq<Stmt>)>,
    l: bool,
    n: Seq<char>,
)
    requires
        super::dec_cases(c, d, s).1.contains(n),
        !d.contains(n),
    ensures
        scan::let_at(scan::scoped_cases(super::dec_cases(c, d, s).0, l), n),
    decreases s, 0nat,
{
    if s.len() > 0 {
        let a = super::dec_cases(c, d, s.drop_last());
        let b = super::dec_list(c, a.1, s.last().1);
        if a.1.contains(n) {
            lemma_let_cases(c, d, s.drop_last(), l, n);
        } else {
            lemma_let_list(c, a.1, s.last().1, l, n);
        }
        assert(a.0.push((s.last().0, b.0)).drop_last() =~= a.0);
        lemma_let_both(scan::scoped_cases(a.0, l), scan::scoped(b.0, l), n);
    }
}

/// Whether what kept a name from being declared still does, once some names are declared.
spec fn follows(c: Scope, k: Scope, names: Set<Seq<char>>) -> bool {
    &&& k.params == c.params
    &&& k.outer == c.outer
    &&& k.skip_env == c.skip_env
    &&& forall|n: Seq<char>| #[trigger]
        scan::declared_at(super::listed(c), n) ==> scan::declared_at(super::listed(k), n)
    &&& forall|n: Seq<char>| #[trigger]
        names.contains(n) ==> scan::declared_at(super::listed(k), n)
    &&& forall|n: Seq<char>|
        !names.contains(n) && #[trigger] scan::free_variable(c.body, n) ==> scan::free_variable(
            k.body,
            n,
        )
}

/// Nothing more is declared in what declarations left.
proof fn lemma_settled_stmt(
    c: Scope,
    k: Scope,
    d: Set<Seq<char>>,
    e: Set<Seq<char>>,
    s: Stmt,
    names: Set<Seq<char>>,
)
    requires
        follows(c, k, names),
        super::dec_stmt(c, d, s).1.subset_of(names),
    ensures
        super::dec_stmt(k, e, super::dec_stmt(c, d, s).0) == (super::dec_stmt(c, d, s).0, e),
    decreases s,
{
    let t = super::dec_stmt(c, d, s).0;
    match s {
        Stmt::Assign { target: Target::Variable(n), value } => {
            if t == s {
                assert(!super::declares_variable(c, d, n, value));
                if d.contains(n) {
                    assert(names.contains(n));
                }
                if scan::free_variable(c.body, n) && names.contains(n) {
                    assert(scan::declared_at(super::listed(k), n));
                }
                assert(!super::declares_variable(k, e, n, value));
            }
        },
        Stmt::Assign { target: Target::Register(r), .. } => {
            if t == s {
                let n = names::register_name(r);
                if d.contains(n) {
                    assert(names.contains(n));
                }
                assert(!super::declares_register(k, e, n));
            }
        },
        Stmt::If { then_body, else_body, .. } => {
            let x = super::dec_list(c, d, then_body);
            lemma_grows_list(c, x.1, else_body);
            lemma_settled_list(c, k, d, e, then_body, names);
            lemma_settled_list(c, k, x.1, e, else_body, names);
        },
        Stmt::While { body, .. } => lemma_settled_list(c, k, d, e, body, names),
        Stmt::DoWhile { body, .. } => lemma_settled_list(c, k, d, e, body, names),
        Stmt::For { body, .. } => lemma_settled_list(c, k, d, e, body, names),
        Stmt::ForIn { body, .. } => lemma_settled_list(c, k, d, e, body, names),
        Stmt::ForOf { body, .. } => lemma_settled_list(c, k, d, e, body, names),
        Stmt::Block(body) => lemma_settled_list(c, k, d, e, body, names),
        Stmt::TryCatch { try_body, catch_body, finally_body, .. } => {
            let x = super::dec_list(c, d, try_body);
            let y = super::dec_list(c, x.1, catch_body);
            lemma_grows_list(c, x.1, catch_body);
            lemma_grows_list(c, y.1, finally_body);
            lemma_settled_list(c, k, d, e, try_body, names);
            lemma_settled_list(c, k, x.1, e, catch_body, names);
            lemma_settled_list(c, k, y.1, e, finally_body, names);
        },
        Stmt::Switch { cases, default, .. } => {
            let x = super::dec_cases(c, d, cases);
            if let Some(body) = default {
                lemma_grows_list(c, x.1, body);
                lemma_settled_list(c, k, x.1, e, body, names);
            }
            lemma_settled_cases(c, k, d, e, cases, names);
        },
        _ => {},
    }
}

proof fn lemma_settled_list(
    c: Scope,
    k: Scope,
    d: Set<Seq<char>>,
    e: Set<Seq<char>>,
    s: Seq<Stmt>,
    names: Set<Seq<char>>,
)
    requires
        follows(c, k, names),
        super::dec_list(c, d, s).1.subset_of(names),
    ensures
        super::dec_list(k, e, super::dec_list(c, d, s).0) == (super::dec_list(c, d, s).0, e),
    decreases s,
{
    if s.len() > 0 {
        let a = super::dec_list(c, d, s.drop_last());
        let b = super::dec_stmt(c, a.1, s.last());
        lemma_grows_stmt(c, a.1, s.last());
        lemma_settled_list(c, k, d, e, s.drop_last(), names);
        lemma_settled_stmt(c, k, a.1, e, s.last(), names);
        assert(a.0.push(b.0).drop_last() =~= a.0);
    }
}

proof fn lemma_settled_cases(
    c: Scope,
    k: Scope,
    d: Set<Seq<char>>,
    e: Set<Seq<char>>,
    s: Seq<(Expr, Seq<Stmt>)>,
    names: Set<Seq<char>>,
)
    requires
        follows(c, k, names),
        super::dec_cases(c, d, s).1.subset_of(names),
    ensures
        super::dec_cases(k, e, super::dec_cases(c, d, s).0) == (super::dec_cases(c, d, s).0, e),
    decreases s,
{
    if s.len() > 0 {
        let a = super::dec_cases(c, d, s.drop_last());
        let b = super::dec_list(c, a.1, s.last().1);
        lemma_grows_list(c, a.1, s.last().1);
        lemma_settled_cases(c, k, d, e, s.drop_last(), names);
        lemma_settled_list(c, k, a.1, e, s.last().1, names);
        assert(a.0.push((s.last().0, b.0)).drop_last() =~= a.0);
    }
}

spec fn bare_declarations(top: Seq<Seq<char>>) -> Seq<Stmt> {
    top.map_values(|n: Seq<char>| super::bare_declaration(n))
}

/// Declarations at the top stay as they are, and the rest is worked on behind them.
proof fn lemma_behind_top(c: Scope, d: Set<Seq<char>>, top: Seq<Seq<char>>, s: Seq<Stmt>)
    ensures
        super::dec_list(c, d, bare_declarations(top) + s) == (
            bare_declarations(top) + super::dec_list(c, d, s).0,
            super::dec_list(c, d, s).1,
        ),
    decreases top.len() + s.len(),
{
    let t = bare_declarations(top);
    if s.len() > 0 {
        let a = super::dec_list(c, d, s.drop_last());
        let b = super::dec_stmt(c, a.1, s.last());
        lemma_behind_top(c, d, top, s.drop_last());
        assert((t + s).drop_last() =~= t + s.drop_last());
        assert((t + s).last() == s.last());
        assert(t + a.0.push(b.0) =~= (t + a.0).push(b.0));
    } else {
        assert(super::dec_list(c, d, s) == (Seq::<Stmt>::empty(), d));
        assert(t + s =~= t);
        assert(t + super::dec_list(c, d, s).0 =~= t);
        if top.len() > 0 {
            let rest = top.drop_last();
            lemma_behind_top(c, d, rest, s);
            let r = bare_declarations(rest);
            assert(r + s =~= r);
            assert(r + super::dec_list(c, d, s).0 =~= r);
            assert(t.drop_last() =~= r);
            assert(t.last() == super::bare_declaration(top.last()));
            assert(super::dec_list(c, d, r) == (r, d));
            assert(super::dec_stmt(c, d, t.last()) == (t.last(), d));
            assert(r.push(t.last()) =~= t);
            assert(super::dec_list(c, d, t) == (t, d));
        } else {
            assert(t =~= Seq::empty());
        }
    }
}

/// What declarations at the top amount to.
proof fn lemma_top(top: Seq<Seq<char>>, n: Seq<char>)
    ensures
        scan::let_at(scan::scoped(bare_declarations(top), false), n) == top.contains(n),
        scan::declared_at(scan::scoped(bare_declarations(top), false), n) == top.contains(n),
        !scan::assigned_at(scan::scoped(bare_declarations(top), false), true, n),
        !scan::assigned_at(scan::scoped(bare_declarations(top), false), false, n),
        scan::referred_at(scan::scoped(bare_declarations(top), false), n) ==> top.contains(n),
        !top.contains(n) ==> scan::read_first(scan::looks(bare_declarations(top)), n) is None,
        forall|i: int|
            0 <= i < scan::scoped(bare_declarations(top), false).len() ==> (
            #[trigger] scan::scoped(bare_declarations(top), false)[i]).0 is Let,
    decreases top.len(),
{
    let t = bare_declarations(top);
    if top.len() > 0 {
        let rest = top.drop_last();
        let x = top.last();
        let r = bare_declarations(rest);
        lemma_top(rest, n);
        assert(t.drop_last() =~= r);
        assert(t.last() == super::bare_declaration(x));
        let own = scan::scoped_stmt(t.last(), false);
        assert(own =~= seq![(super::bare_declaration(x), false)]);
        lemma_let_both(scan::scoped(r, false), own, n);
        assert(top.contains(n) == (rest.contains(n) || x == n)) by {
            if rest.contains(n) {
                let k = choose|k: int| 0 <= k < rest.len() && rest[k] == n;
                assert(top[k] == n);
            }
            if top.contains(n) {
                let k = choose|k: int| 0 <= k < top.len() && top[k] == n;
                if k < rest.len() {
                    assert(rest[k] == n);
                }
            }
            assert(top[top.len() - 1] == x);
        }
        assert(own.drop_last() =~= Seq::empty());
        reveal_with_fuel(scan::let_at, 2);
        reveal_with_fuel(scan::declared_at, 2);
        reveal_with_fuel(scan::assigned_at, 2);
        reveal_with_fuel(scan::referred_at, 2);
        reveal_with_fuel(scan::read_first, 2);
        assert(scan::scoped(t, false) == scan::scoped(r, false) + own);
        if let Stmt::Let { value, .. } = super::bare_declaration(x) {
            let e = occurs::expr_atoms(value);
            lemma_no_name_in_undefined();
            if scan::refers(super::bare_declaration(x), n) {
                let y = scan::own_atoms(super::bare_declaration(x));
                let i = choose|i: int|
                    0 <= i < y.len() && #[trigger] scan::referred(y[i]) == Some(n);
                if i > 0 {
                    assert(y[i] == e[i - 1]);
                }
            }
            assert(scan::looks_stmt(t.last()) =~= seq![(x, false)]);
            lemma_read_first(scan::looks(r), scan::looks_stmt(t.last()), n);
            assert(seq![(x, false)].drop_last() =~= Seq::<scan::Glance>::empty());
        }
    } else {
        assert(t =~= Seq::empty());
        assert(scan::scoped(t, false) =~= Seq::empty());
    }
}

proof fn lemma_no_name_in_undefined()
    ensures
        ({
            let e = occurs::expr_atoms(
                Expr::Value(Val::Constant(Const::Undefined)),
            );
            scan::glances(e) == Seq::<scan::Glance>::empty() && forall|i: int|
                0 <= i < e.len() ==> scan::referred(#[trigger] e[i]) is None
        }),
{
    let e = occurs::expr_atoms(Expr::Value(Val::Constant(Const::Undefined)));
    reveal_with_fuel(scan::glances, 3);
    assert(e.len() <= 1);
    if e.len() == 1 {
        assert(e.drop_last() =~= Seq::empty());
    }
}

proof fn lemma_carried_at_top(c: Scope, s: Seq<(Stmt, bool)>, i: int, n: Seq<char>)
    requires
        0 <= i < s.len(),
        scan::assigns(s[i].0, n),
        super::carried(c, n),
    ensures
        super::top_names(c, s).contains(n),
    decreases s.len(),
{
    let before = super::top_names(c, s.drop_last());
    match s.last().0 {
        Stmt::Assign { target: Target::Variable(x), .. } => super::lemma_with_name(before, x),
        Stmt::Assign { target, .. } => super::lemma_with_bound(
            c,
            before,
            occurs::target_atoms(target),
        ),
        _ => {},
    }
    if i < s.len() - 1 {
        assert(s.drop_last()[i] == s[i]);
        lemma_carried_at_top(c, s.drop_last(), i, n);
    }
}

proof fn lemma_none_bound(c: Scope, atoms: Seq<Atom>)
    requires
        forall|n: Seq<char>| atoms.contains(Atom::WriteVariable(n)) ==> !#[trigger] super::patterned(
            c,
            n,
        ),
    ensures
        super::with_bound(c, Seq::empty(), atoms) == Seq::<Seq<char>>::empty(),
    decreases atoms.len(),
{
    if atoms.len() > 0 {
        let rest = atoms.drop_last();
        assert forall|n: Seq<char>|
            rest.contains(Atom::WriteVariable(n)) implies !#[trigger] super::patterned(c, n) by {
            let i = choose|i: int| 0 <= i < rest.len() && rest[i] == Atom::WriteVariable(n);
            assert(atoms[i] == Atom::WriteVariable(n));
        }
        lemma_none_bound(c, rest);
        if let Atom::WriteVariable(n) = atoms.last() {
            assert(atoms[atoms.len() - 1] == Atom::WriteVariable(n));
            assert(!super::patterned(c, n));
        }
    }
}

proof fn lemma_none_at_top(c: Scope, s: Seq<(Stmt, bool)>)
    requires
        forall|i: int, n: Seq<char>|
            0 <= i < s.len() && #[trigger] scan::assigns(s[i].0, n) ==> !super::carried(c, n),
        forall|i: int, n: Seq<char>|
            0 <= i < s.len() && #[trigger] scan::binds(s[i].0, n) ==> !super::patterned(c, n),
    ensures
        super::top_names(c, s) == Seq::<Seq<char>>::empty(),
    decreases s.len(),
{
    if s.len() > 0 {
        let rest = s.drop_last();
        assert forall|i: int, n: Seq<char>| 0 <= i < rest.len() && #[trigger] scan::assigns(
            rest[i].0,
            n,
        ) implies !super::carried(c, n) by {
            assert(scan::assigns(s[i].0, n));
        }
        assert forall|i: int, n: Seq<char>| 0 <= i < rest.len() && #[trigger] scan::binds(
            rest[i].0,
            n,
        ) implies !super::patterned(c, n) by {
            assert(scan::binds(s[i].0, n));
        }
        lemma_none_at_top(c, rest);
        let x = s[s.len() - 1].0;
        match x {
            Stmt::Assign { target: Target::Variable(n), .. } => {
                assert(scan::assigns(x, n));
            },
            Stmt::Assign { target, .. } => {
                if scan::pattern(target) {
                    let atoms = occurs::target_atoms(target);
                    assert forall|n: Seq<char>|
                        atoms.contains(Atom::WriteVariable(n)) implies !#[trigger] super::patterned(
                        c,
                        n,
                    ) by {
                        assert(scan::binds(x, n));
                    }
                    lemma_none_bound(c, atoms);
                }
            },
            _ => {},
        }
    }
}

proof fn lemma_assigned_somewhere(s: Seq<(Stmt, bool)>, l: bool, n: Seq<char>) -> (i: int)
    requires
        scan::assigned_at(s, l, n),
    ensures
        0 <= i < s.len(),
        scan::assigns(s[i].0, n),
    decreases s.len(),
{
    if scan::assigned_at(s.drop_last(), l, n) {
        lemma_assigned_somewhere(s.drop_last(), l, n)
    } else {
        s.len() - 1
    }
}

/// The function whose body is what declarations leave of another's.
pub open spec fn after(c: Scope) -> Scope {
    Scope { body: super::declared_body(c), ..c }
}

/// Declaring the variables of a function again changes nothing.
pub proof fn lemma_declarations_settle(c: Scope)
    ensures
        super::declared_body(after(c)) == super::declared_body(c),
{
    let top = super::hoisted(c);
    let t = bare_declarations(top);
    let b = super::dec_list(c, top.to_set(), c.body);
    let names = b.1;
    let k = after(c);
    lemma_behind_top(c, top.to_set(), top, c.body);
    assert(k.body == t + b.0);
    let a = scan::scoped(c.body, false);
    let z = scan::scoped(b.0, false);
    let y = scan::scoped(t, false);
    lemma_scoped_both(t, b.0);
    assert(super::listed(k) == y + z);
    lemma_grows_list(c, top.to_set(), c.body);
    lemma_kin_list(c, top.to_set(), c.body, names, false);
    assert forall|n: Seq<char>| #[trigger] scan::declared_at(
        super::listed(c),
        n,
    ) implies scan::declared_at(super::listed(k), n) by {
        lemma_kin_names(names, a, z, n);
        lemma_let_both(y, z, n);
    }
    assert forall|n: Seq<char>| #[trigger] names.contains(n) implies scan::let_at(
        super::listed(k),
        n,
    ) by {
        lemma_let_both(y, z, n);
        lemma_top(top, n);
        if !top.to_set().contains(n) {
            lemma_let_list(c, top.to_set(), c.body, false, n);
        }
    }
    assert forall|n: Seq<char>| #[trigger] names.contains(n) implies scan::declared_at(
        super::listed(k),
        n,
    ) by {
        assert(scan::let_at(super::listed(k), n));
        lemma_let_declares(super::listed(k), n);
    }
    assert forall|n: Seq<char>| !names.contains(n) && #[trigger] scan::free_variable(
        c.body,
        n,
    ) implies scan::free_variable(k.body, n) by {
        lemma_top(top, n);
        assert(!top.contains(n)) by {
            if top.contains(n) {
                assert(top.to_set().contains(n));
            }
        }
        lemma_looks_list(c, top.to_set(), c.body, n);
        lemma_looks_both(t, b.0);
        lemma_read_first(scan::looks(t), scan::looks(b.0), n);
    }
    assert(follows(c, k, names));
    let s = super::listed(k);
    assert forall|i: int, n: Seq<char>| 0 <= i < s.len() && #[trigger] scan::assigns(
        s[i].0,
        n,
    ) implies !super::carried(k, n) by {
        if super::carried(k, n) {
            assert(!names.contains(n));
            lemma_let_both(y, z, n);
            lemma_top(top, n);
            lemma_kin_names(names, a, z, n);
            assert(super::carried(c, n));
            let j = lemma_assigned_somewhere(a, true, n);
            lemma_carried_at_top(c, a, j, n);
            assert(top.to_set().contains(n));
        }
    }
    assert forall|i: int, n: Seq<char>| 0 <= i < s.len() && #[trigger] scan::binds(
        s[i].0,
        n,
    ) implies !super::patterned(k, n) by {
        if super::patterned(k, n) {
            assert(!names.contains(n));
            lemma_let_both(y, z, n);
            lemma_top(top, n);
            lemma_kin_names(names, a, z, n);
            if i < y.len() {
                assert(s[i] == y[i]);
            } else {
                let j = i - y.len();
                assert(s[i] == z[j]);
                assert(kin(names, a[j].0, z[j].0));
                assert(scan::binds(a[j].0, n));
                super::lemma_pattern_names_are_declared(c, j, n);
                assert(top.to_set().contains(n));
            }
        }
    }
    lemma_none_at_top(k, s);
    let none = Seq::<Seq<char>>::empty();
    assert(super::hoisted(k) == none);
    lemma_settled_list(c, k, top.to_set(), none.to_set(), c.body, names);
    lemma_behind_top(k, none.to_set(), top, b.0);
    assert(none.map_values(|n: Seq<char>| super::bare_declaration(n)) + k.body =~= k.body);
}

proof fn lemma_let_declares(s: Seq<(Stmt, bool)>, n: Seq<char>)
    requires
        scan::let_at(s, n),
    ensures
        scan::declared_at(s, n),
    decreases s.len(),
{
    if scan::let_at(s.drop_last(), n) {
        lemma_let_declares(s.drop_last(), n);
    }
}

proof fn lemma_scoped_both(s: Seq<Stmt>, t: Seq<Stmt>)
    ensures
        scan::scoped(s + t, false) == scan::scoped(s, false) + scan::scoped(t, false),
    decreases t.len(),
{
    if t.len() > 0 {
        lemma_scoped_both(s, t.drop_last());
        assert((s + t).drop_last() =~= s + t.drop_last());
        assert(scan::scoped(s + t, false) =~= scan::scoped(s, false) + scan::scoped(t, false));
    } else {
        assert(s + t =~= s);
        assert(scan::scoped(s, false) + scan::scoped(t, false) =~= scan::scoped(s, false));
    }
}

proof fn lemma_looks_both(s: Seq<Stmt>, t: Seq<Stmt>)
    ensures
        scan::looks(s + t) == scan::looks(s) + scan::looks(t),
    decreases t.len(),
{
    if t.len() > 0 {
        lemma_looks_both(s, t.drop_last());
        assert((s + t).drop_last() =~= s + t.drop_last());
        assert(scan::looks(s + t) =~= scan::looks(s) + scan::looks(t));
    } else {
        assert(s + t =~= s);
        assert(scan::looks(s) + scan::looks(t) =~= scan::looks(s));
    }
}

} // verus!
