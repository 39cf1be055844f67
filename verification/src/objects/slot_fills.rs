//! Folds the writes that fill the slots of an object literal into the literal.
//!
//! A literal can be made with placeholders, which writes of its slots then replace:
//! `obj = { a: null }; obj[0] = x` is `obj = { a: x }`.

use super::refs;
use super::refs::{ObjRef, Ref};
use crate::ir::bodies;
use crate::ir::cloning::{clone_opt_expr, clone_opt_stmt, clone_opt_text, clone_props, clone_texts};
use crate::ir::effects;
use crate::ir::model;
use crate::ir::model::{Const, Expr, Key, Prop, Stmt, Target, Val};
use crate::ir::nested;
use crate::ir::{
    AssignTarget, Constant, Expression, ObjectProperty, PropertyKey, Statement, Value,
};
use crate::text;
use vstd::prelude::*;

verus! {

/// The place and the properties of an object literal with properties that a statement stores.
pub open spec fn literal(s: Stmt) -> Option<(Ref, Seq<Prop>)> {
    match s {
        Stmt::Assign { target: Target::Register(r), value: Expr::Object { properties } } => if properties.len()
            > 0 {
            Some((Ref::Register(r), properties))
        } else {
            None
        },
        Stmt::Assign { target: Target::Variable(n), value: Expr::Object { properties } } => if properties.len()
            > 0 {
            Some((Ref::Name(n), properties))
        } else {
            None
        },
        Stmt::Let { name, value: Expr::Object { properties }, .. } => if properties.len() > 0 {
            Some((Ref::Name(name), properties))
        } else {
            None
        },
        _ => None,
    }
}

/// The statement with other properties in its literal.
pub open spec fn with_props(s: Stmt, ps: Seq<Prop>) -> Stmt {
    match s {
        Stmt::Assign { target, .. } => Stmt::Assign {
            target,
            value: Expr::Object { properties: ps },
        },
        Stmt::Let { name, kind, .. } => Stmt::Let {
            name,
            value: Expr::Object { properties: ps },
            kind,
        },
        _ => s,
    }
}

pub open spec fn placeholder(e: Expr) -> bool {
    e == Expr::Value(Val::Constant(Const::Null)) || e == Expr::Value(
        Val::Constant(Const::Undefined),
    )
}

/// The whole number, not negative, that an expression is.
pub open spec fn slot_number(e: Expr) -> Option<int> {
    match e {
        Expr::Value(Val::Constant(Const::Integer(n))) => if n >= 0 {
            Some(n as int)
        } else {
            None
        },
        _ => None,
    }
}

pub open spec fn key_is(k: Key, n: Seq<char>) -> bool {
    k == Key::Ident(n) || k == Key::String(n)
}

/// The first property of a name, from a position on.
pub open spec fn position(ps: Seq<Prop>, n: Seq<char>, i: int) -> Option<int>
    decreases ps.len() - i,
{
    if i < 0 || i >= ps.len() {
        None
    } else if key_is(ps[i].key, n) {
        Some(i)
    } else {
        position(ps, n, i + 1)
    }
}

/// What a statement puts into a slot of the object in a place: the slot, where the properties
/// have it, and the value. A slot is written by its number or, if `by_name`, by its name.
pub open spec fn fill(by_name: bool, s: Stmt, o: Ref, ps: Seq<Prop>) -> Option<
    (Option<int>, Expr),
> {
    if by_name {
        match s {
            Stmt::Assign { target: Target::Member { object, property }, value } => if refs::as_ref(
                object,
            ) == Some(o) {
                Some((position(ps, property, 0), value))
            } else {
                None
            },
            _ => None,
        }
    } else {
        match s {
            Stmt::Assign { target: Target::Index { object, key }, value } => match slot_number(
                key,
            ) {
                Some(n) => if refs::as_ref(object) == Some(o) && n < ps.len() {
                    Some((Some(n), value))
                } else {
                    None
                },
                None => None,
            },
            _ => None,
        }
    }
}

/// Whether nothing after a statement can be folded into the literal in a place.
pub open spec fn ends_scan(s: Stmt, o: Ref) -> bool {
    refs::defined(s) == Some(o) || refs::used(s, o) || effects::stmt_effects(s)
}

/// The places given a value since the literal, after one more statement.
pub open spec fn noted(d: Seq<Ref>, s: Stmt) -> Seq<Ref> {
    match refs::defined(s) {
        Some(x) => d.push(x),
        None => d,
    }
}

/// The properties of the literal in place `o` with the fills from position `j` on, and the marks
/// of the statements folded. A fill whose value reads a place given a value since the literal
/// stays where it is.
pub open spec fn scanned(
    by_name: bool,
    t: Seq<Stmt>,
    o: Ref,
    ps: Seq<Prop>,
    c: Seq<bool>,
    j: int,
    d: Seq<Ref>,
) -> (Seq<Prop>, Seq<bool>)
    decreases t.len() - j,
{
    if j < 0 || j >= t.len() {
        (ps, c)
    } else {
        match fill(by_name, t[j], o, ps) {
            Some(x) => if refs::reads(x.1, d) {
                scanned(by_name, t, o, ps, c, j + 1, d)
            } else {
                match x.0 {
                    Some(k) => if placeholder(ps[k].value) {
                        scanned(
                            by_name,
                            t,
                            o,
                            ps.update(k, Prop { key: ps[k].key, value: x.1 }),
                            c.update(j, true),
                            j + 1,
                            noted(d, t[j]),
                        )
                    } else {
                        (ps, c)
                    },
                    None => (ps, c),
                }
            },
            None => if ends_scan(t[j], o) {
                (ps, c)
            } else {
                scanned(by_name, t, o, ps, c, j + 1, noted(d, t[j]))
            },
        }
    }
}

/// The list with the fills of its first `k` statements' literals in them, and the marks of the
/// statements folded.
pub open spec fn filled(by_name: bool, s: Seq<Stmt>, k: nat) -> (Seq<Stmt>, Seq<bool>)
    decreases k,
{
    if k == 0 {
        (s, Seq::new(s.len(), |i: int| false))
    } else {
        let before = filled(by_name, s, (k - 1) as nat);
        match literal(before.0[k - 1]) {
            Some(x) => {
                let r = scanned(by_name, before.0, x.0, x.1, before.1, k as int, Seq::empty());
                (before.0.update(k - 1, with_props(before.0[k - 1], r.0)), r.1)
            },
            None => before,
        }
    }
}

/// The statements without a mark.
pub open spec fn unmarked(s: Seq<Stmt>, c: Seq<bool>) -> Seq<Stmt>
    decreases s.len(),
{
    if s.len() == 0 {
        s
    } else if c[s.len() - 1] {
        unmarked(s.drop_last(), c)
    } else {
        unmarked(s.drop_last(), c).push(s.last())
    }
}

/// The list with its fills folded, nested lists aside.
pub open spec fn folded(by_name: bool, s: Seq<Stmt>) -> Seq<Stmt> {
    let x = filled(by_name, s, s.len());
    unmarked(x.0, x.1)
}

/// The names of properties that all have one.
pub open spec fn ident_keys(ps: Seq<Prop>) -> Option<Seq<Seq<char>>>
    decreases ps.len(),
{
    if ps.len() == 0 {
        Some(Seq::empty())
    } else {
        match (ident_keys(ps.drop_last()), ps.last().key) {
            (Some(ks), Key::Ident(n)) => Some(ks.push(n)),
            _ => None,
        }
    }
}

/// The place and the names of the properties of a literal with named properties only.
pub open spec fn shape(s: Stmt) -> Option<(Ref, Seq<Seq<char>>)> {
    match literal(s) {
        Some(x) => match ident_keys(x.1) {
            Some(ks) => Some((x.0, ks)),
            None => None,
        },
        None => None,
    }
}

/// The names of the properties of the object in a place.
pub open spec fn names_of(m: Seq<(Ref, Seq<Seq<char>>)>, o: Ref) -> Option<Seq<Seq<char>>>
    decreases m.len(),
{
    if m.len() == 0 {
        None
    } else if m.last().0 == o {
        Some(m.last().1)
    } else {
        names_of(m.drop_last(), o)
    }
}

/// Whether a statement or one inside it gives a place another value.
pub open spec fn reassigned(s: Seq<Stmt>, o: Ref) -> bool
    decreases s.len(),
{
    s.len() > 0 && (reassigned(s.drop_last(), o) || refs::defined(s.last()) == Some(o))
}

/// The shapes of the places that the statements do not give another value.
pub open spec fn still_known(m: Seq<(Ref, Seq<Seq<char>>)>, s: Seq<Stmt>) -> Seq<
    (Ref, Seq<Seq<char>>),
>
    decreases m.len(),
{
    if m.len() == 0 {
        m
    } else if reassigned(s, m.last().0) {
        still_known(m.drop_last(), s)
    } else {
        still_known(m.drop_last(), s).push(m.last())
    }
}

/// A write of a slot by its number, by its name.
pub open spec fn slot_named(m: Seq<(Ref, Seq<Seq<char>>)>, s: Stmt) -> Option<Stmt> {
    match s {
        Stmt::Assign { target: Target::Index { object, key }, value } => match (
            slot_number(key),
            refs::as_ref(object),
        ) {
            (Some(n), Some(o)) => match names_of(m, o) {
                Some(ks) => if n < ks.len() {
                    Some(
                        Stmt::Assign { target: Target::Member { object, property: ks[n] }, value },
                    )
                } else {
                    None
                },
                None => None,
            },
            _ => None,
        },
        _ => None,
    }
}

/// A statement with its slot fills named, and the shapes known after it.
pub open spec fn named_step(m: Seq<(Ref, Seq<Seq<char>>)>, s: Stmt) -> (
    Stmt,
    Seq<(Ref, Seq<Seq<char>>)>,
)
    decreases s, 1nat,
{
    match shape(s) {
        Some(x) => (s, still_known(m, seq![s]).push(x)),
        None => match slot_named(m, s) {
            Some(t) => (t, m),
            None => {
                let t = named_nested(m, s);
                (t, still_known(m, nested::flat_stmt(t)))
            },
        },
    }
}

/// The list with its slot fills named, and the shapes known after it.
pub open spec fn named_run(m: Seq<(Ref, Seq<Seq<char>>)>, s: Seq<Stmt>) -> (
    Seq<Stmt>,
    Seq<(Ref, Seq<Seq<char>>)>,
)
    decreases s, 0nat,
{
    if s.len() == 0 {
        (s, m)
    } else {
        let before = named_run(m, s.drop_last());
        let x = named_step(before.1, s.last());
        (before.0.push(x.0), x.1)
    }
}

/// The list with the slot fills of the objects whose shapes are known named. A nested list knows
/// the shapes known before its statement.
pub open spec fn named(m: Seq<(Ref, Seq<Seq<char>>)>, s: Seq<Stmt>) -> Seq<Stmt>
    decreases s, 1nat,
{
    named_run(m, s).0
}

/// The statement with the slot fills in its nested lists named.
pub open spec fn named_nested(m: Seq<(Ref, Seq<Seq<char>>)>, s: Stmt) -> Stmt
    decreases s, 0nat,
{
    match s {
        Stmt::If { condition, then_body, else_body } => Stmt::If {
            condition,
            then_body: named(m, then_body),
            else_body: named(m, else_body),
        },
        Stmt::While { condition, body } => Stmt::While {
            condition,
            body: named(m, body),
        },
        Stmt::DoWhile { body, condition } => Stmt::DoWhile {
            body: named(m, body),
            condition,
        },
        Stmt::For { init, condition, update, body } => Stmt::For {
            init,
            condition,
            update,
            body: named(m, body),
        },
        Stmt::ForIn { variable, object, body } => Stmt::ForIn {
            variable,
            object,
            body: named(m, body),
        },
        Stmt::ForOf { variable, iterable, body } => Stmt::ForOf {
            variable,
            iterable,
            body: named(m, body),
        },
        Stmt::Block(body) => Stmt::Block(named(m, body)),
        Stmt::TryCatch { try_body, catch_param, catch_body, finally_body } => Stmt::TryCatch {
            try_body: named(m, try_body),
            catch_param,
            catch_body: named(m, catch_body),
            finally_body: named(m, finally_body),
        },
        Stmt::Switch { discriminant, cases, default } => Stmt::Switch {
            discriminant,
            cases: named_nested_cases(m, cases),
            default: named_nested_default(m, default),
        },
        _ => s,
    }
}

pub open spec fn named_nested_case(m: Seq<(Ref, Seq<Seq<char>>)>, c: (Expr, Seq<Stmt>)) -> (Expr, Seq<Stmt>)
    decreases c, 0nat,
{
    (c.0, named(m, c.1))
}

pub open spec fn named_nested_cases(m: Seq<(Ref, Seq<Seq<char>>)>, s: Seq<(Expr, Seq<Stmt>)>) -> Seq<(Expr, Seq<Stmt>)>
    decreases s, 0nat,
{
    Seq::new(
        s.len(),
        |i: int|
            if 0 <= i < s.len() {
                named_nested_case(m, s[i])
            } else {
                arbitrary()
            },
    )
}

pub open spec fn named_nested_default(m: Seq<(Ref, Seq<Seq<char>>)>, d: Option<Seq<Stmt>>) -> Option<Seq<Stmt>>
    decreases d, 0nat,
{
    match d {
        Some(b) => Some(named(m, b)),
        None => None,
    }
}

/// Folding replaces placeholders only: a literal keeps its keys, and every value that is no
/// placeholder.
pub proof fn lemma_only_placeholders_are_filled(
    by_name: bool,
    t: Seq<Stmt>,
    o: Ref,
    ps: Seq<Prop>,
    c: Seq<bool>,
    j: int,
    d: Seq<Ref>,
    k: int,
)
    requires
        0 <= k < ps.len(),
    ensures
        ({
            let r = scanned(by_name, t, o, ps, c, j, d).0;
            &&& r.len() == ps.len()
            &&& r[k].key == ps[k].key
            &&& placeholder(ps[k].value) || r[k].value == ps[k].value
        }),
    decreases t.len() - j,
{
    if 0 <= j < t.len() {
        match fill(by_name, t[j], o, ps) {
            Some(x) => {
                lemma_only_placeholders_are_filled(by_name, t, o, ps, c, j + 1, d, k);
                if let Some(n) = x.0 {
                    if by_name {
                        if let Stmt::Assign { target: Target::Member { property, .. }, .. } = t[j] {
                            lemma_position(ps, property, 0);
                        }
                    }
                    let qs = ps.update(n, Prop { key: ps[n].key, value: x.1 });
                    lemma_only_placeholders_are_filled(
                        by_name,
                        t,
                        o,
                        qs,
                        c.update(j, true),
                        j + 1,
                        noted(d, t[j]),
                        k,
                    );
                }
            },
            None => {
                lemma_only_placeholders_are_filled(
                    by_name,
                    t,
                    o,
                    ps,
                    c,
                    j + 1,
                    noted(d, t[j]),
                    k,
                );
            },
        }
    }
}

proof fn lemma_position(ps: Seq<Prop>, n: Seq<char>, i: int)
    requires
        0 <= i,
    ensures
        position(ps, n, i) matches Some(k) ==> i <= k < ps.len(),
    decreases ps.len() - i,
{
    if i < ps.len() {
        lemma_position(ps, n, i + 1);
    }
}

/// Naming a slot moves nothing: a list keeps its statements, one for one.
pub proof fn lemma_naming_keeps_statements(m: Seq<(Ref, Seq<Seq<char>>)>, s: Seq<Stmt>)
    ensures
        named(m, s).len() == s.len(),
    decreases s.len(),
{
    if s.len() > 0 {
        lemma_naming_keeps_statements(m, s.drop_last());
    }
}

/// The list with its fills folded, and those that stay named.
pub open spec fn fills_folded(s: Seq<Stmt>) -> Seq<Stmt> {
    named(Seq::empty(), folded(true, folded(false, s)))
}

pub open spec fn shape_view(x: (ObjRef, Vec<String>)) -> (Ref, Seq<Seq<char>>) {
    (x.0@, model::texts(x.1@))
}

pub open spec fn shapes(s: Seq<(ObjRef, Vec<String>)>) -> Seq<(Ref, Seq<Seq<char>>)> {
    s.map_values(|x: (ObjRef, Vec<String>)| shape_view(x))
}

fn object_literal_def(s: &Statement) -> (r: Option<(ObjRef, &Vec<ObjectProperty>)>)
    ensures
        match r {
            Some(x) => literal(s@) == Some((x.0@, model::props(x.1@))),
            None => literal(s@) is None,
        },
{
    proof {
        reveal_with_fuel(Expression::view, 2);
    }
    match s {
        Statement::Assign {
            target: AssignTarget::Register(r),
            value: Expression::Object { properties },
        } => {
            assert(model::props(properties@).len() == properties@.len());
            if properties.len() > 0 {
                Some((ObjRef::Register(*r), properties))
            } else {
                None
            }
        },
        Statement::Assign {
            target: AssignTarget::Variable(n),
            value: Expression::Object { properties },
        } => {
            assert(model::props(properties@).len() == properties@.len());
            if properties.len() > 0 {
                Some((ObjRef::Name(n.clone()), properties))
            } else {
                None
            }
        },
        Statement::Let { name, value: Expression::Object { properties }, .. } => {
            assert(model::props(properties@).len() == properties@.len());
            if properties.len() > 0 {
                Some((ObjRef::Name(name.clone()), properties))
            } else {
                None
            }
        },
        _ => None,
    }
}

fn set_props(s: &Statement, ps: Vec<ObjectProperty>) -> (r: Statement)
    ensures
        r@ == with_props(s@, model::props(ps@)),
{
    match s {
        Statement::Assign { target, .. } => Statement::Assign {
            target: target.clone(),
            value: Expression::Object { properties: ps },
        },
        Statement::Let { name, kind, .. } => Statement::Let {
            name: name.clone(),
            value: Expression::Object { properties: ps },
            kind: *kind,
        },
        _ => s.clone(),
    }
}

fn is_placeholder(e: &Expression) -> (r: bool)
    ensures
        r == placeholder(e@),
{
    match e {
        Expression::Value(Value::Constant(Constant::Null)) => true,
        Expression::Value(Value::Constant(Constant::Undefined)) => true,
        _ => false,
    }
}

fn find_slot_number(e: &Expression) -> (r: Option<usize>)
    ensures
        match r {
            Some(n) => slot_number(e@) == Some(n as int),
            None => slot_number(e@) is None,
        },
{
    match e {
        Expression::Value(Value::Constant(Constant::Integer(n))) => if *n >= 0 {
            Some(*n as usize)
        } else {
            None
        },
        _ => None,
    }
}

fn prop_key_is(k: &PropertyKey, n: &str) -> (r: bool)
    ensures
        r == key_is(k@, n@),
{
    match k {
        PropertyKey::Ident(s) => text::same(s, n),
        PropertyKey::String(s) => text::same(s, n),
        _ => false,
    }
}

fn find_position(ps: &Vec<ObjectProperty>, n: &str) -> (r: Option<usize>)
    ensures
        match r {
            Some(k) => k < ps@.len() && position(model::props(ps@), n@, 0) == Some(k as int),
            None => position(model::props(ps@), n@, 0) is None,
        },
{
    let ghost all = model::props(ps@);
    let mut i: usize = 0;
    while i < ps.len()
        invariant
            i <= ps.len(),
            all == model::props(ps@),
            position(all, n@, 0) == position(all, n@, i as int),
        decreases ps.len() - i,
    {
        assert(all[i as int] == ps@[i as int]@);
        if prop_key_is(&ps[i].key, n) {
            return Some(i);
        }
        i += 1;
    }
    None
}

fn find_fill<'a>(
    by_name: bool,
    s: &'a Statement,
    o: &ObjRef,
    ps: &Vec<ObjectProperty>,
) -> (r: Option<(Option<usize>, &'a Expression)>)
    ensures
        match r {
            Some(x) => match x.0 {
                Some(k) => k < ps@.len() && fill(by_name, s@, o@, model::props(ps@)) == Some(
                    (Some(k as int), x.1@),
                ),
                None => fill(by_name, s@, o@, model::props(ps@)) == Some((None::<int>, x.1@)),
            },
            None => fill(by_name, s@, o@, model::props(ps@)) is None,
        },
{
    proof {
        reveal_with_fuel(AssignTarget::view, 2);
    }
    assert(model::props(ps@).len() == ps@.len());
    if by_name {
        match s {
            Statement::Assign { target: AssignTarget::Member { object, property }, value } => {
                if let Some(x) = refs::find_ref(object) {
                    if x.same(o) {
                        return Some((find_position(ps, property), value));
                    }
                }
                None
            },
            _ => None,
        }
    } else {
        match s {
            Statement::Assign { target: AssignTarget::Index { object, key }, value } => {
                if let Some(n) = find_slot_number(key) {
                    if let Some(x) = refs::find_ref(object) {
                        if x.same(o) && n < ps.len() {
                            return Some((Some(n), value));
                        }
                    }
                }
                None
            },
            _ => None,
        }
    }
}

fn record_defs(d: &mut Vec<ObjRef>, s: &Statement)
    ensures
        refs::refs(final(d)@) == noted(refs::refs(old(d)@), s@),
{
    if let Some(x) = refs::find_defined(s) {
        let ghost before = refs::refs(d@);
        let ghost y = x@;
        d.push(x);
        assert(refs::refs(d@) =~= before.push(y));
    }
}

fn fold_into(
    by_name: bool,
    v: &Vec<Statement>,
    o: &ObjRef,
    ps: &mut Vec<ObjectProperty>,
    c: &mut Vec<bool>,
    from: usize,
)
    requires
        old(c)@.len() == v@.len(),
        from <= v@.len(),
    ensures
        (model::props(final(ps)@), final(c)@) == scanned(
            by_name,
            model::stmts(v@),
            o@,
            model::props(old(ps)@),
            old(c)@,
            from as int,
            Seq::empty(),
        ),
        final(c)@.len() == old(c)@.len(),
{
    let ghost all = model::stmts(v@);
    let ghost goal = scanned(by_name, all, o@, model::props(ps@), c@, from as int, Seq::empty());
    let mut d: Vec<ObjRef> = Vec::new();
    assert(refs::refs(d@) =~= Seq::empty());
    let mut j: usize = from;
    let mut done: bool = false;
    while j < v.len() && !done
        invariant
            j <= v.len(),
            all == model::stmts(v@),
            c@.len() == v@.len(),
            goal == if done {
                (model::props(ps@), c@)
            } else {
                scanned(by_name, all, o@, model::props(ps@), c@, j as int, refs::refs(d@))
            },
        decreases
            v.len() - j + (if done {
                0int
            } else {
                1int
            }),
    {
        assert(all[j as int] == v@[j as int]@);
        let ghost qs = model::props(ps@);
        match find_fill(by_name, &v[j], o, ps) {
            Some(x) => {
                if refs::reads_any(x.1, &d) {
                    j += 1;
                } else {
                    match x.0 {
                        Some(k) => {
                            assert(qs[k as int] == ps@[k as int]@);
                            if is_placeholder(&ps[k].value) {
                                let p = ObjectProperty {
                                    key: ps[k].key.clone(),
                                    value: x.1.clone(),
                                };
                                let ghost y = p@;
                                ps.set(k, p);
                                assert(model::props(ps@) =~= qs.update(k as int, y));
                                c.set(j, true);
                                record_defs(&mut d, &v[j]);
                                j += 1;
                            } else {
                                done = true;
                            }
                        },
                        None => {
                            done = true;
                        },
                    }
                }
            },
            None => {
                if refs::obj_reassigned(&v[j], o) || refs::obj_used(&v[j], o)
                    || effects::stmt_has_side_effects(&v[j]) {
                    done = true;
                } else {
                    record_defs(&mut d, &v[j]);
                    j += 1;
                }
            },
        }
    }
}

fn drop_marked(v: &Vec<Statement>, c: &Vec<bool>) -> (r: Vec<Statement>)
    requires
        c@.len() == v@.len(),
    ensures
        model::stmts(r@) == unmarked(model::stmts(v@), c@),
{
    let ghost all = model::stmts(v@);
    let mut out: Vec<Statement> = Vec::new();
    let mut i: usize = 0;
    assert(model::stmts(out@) =~= all.take(0));
    while i < v.len()
        invariant
            i <= v.len(),
            c@.len() == v@.len(),
            all == model::stmts(v@),
            model::stmts(out@) == unmarked(all.take(i as int), c@),
        decreases v.len() - i,
    {
        assert(all.take(i + 1).drop_last() =~= all.take(i as int));
        assert(all[i as int] == v@[i as int]@);
        if !c[i] {
            let ghost before = model::stmts(out@);
            out.push(v[i].clone());
            assert(model::stmts(out@) =~= before.push(all[i as int]));
        }
        i += 1;
    }
    assert(all.take(all.len() as int) =~= all);
    out
}

fn fold_fills_here(by_name: bool, v: &mut Vec<Statement>)
    ensures
        model::stmts(final(v)@) == folded(by_name, model::stmts(old(v)@)),
{
    let ghost all = model::stmts(v@);
    let n: usize = v.len();
    let mut c: Vec<bool> = Vec::new();
    while c.len() < n
        invariant
            c@.len() <= n,
            forall|i: int| 0 <= i < c@.len() ==> !c@[i],
        decreases n - c.len(),
    {
        c.push(false);
    }
    assert(c@ =~= Seq::new(all.len(), |i: int| false));
    let mut i: usize = 0;
    while i < n
        invariant
            i <= n,
            n == v@.len(),
            n == all.len(),
            c@.len() == n,
            (model::stmts(v@), c@) == filled(by_name, all, i as nat),
        decreases n - i,
    {
        let ghost before = model::stmts(v@);
        assert(before[i as int] == v@[i as int]@);
        if let Some(x) = object_literal_def(&v[i]) {
            let mut ps = clone_props(x.1);
            fold_into(by_name, v, &x.0, &mut ps, &mut c, i + 1);
            let t = set_props(&v[i], ps);
            let ghost y = t@;
            v.set(i, t);
            assert(model::stmts(v@) =~= before.update(i as int, y));
        }
        i += 1;
    }
    let out = drop_marked(v, &c);
    *v = out;
}

fn object_ident_keys(s: &Statement) -> (r: Option<(ObjRef, Vec<String>)>)
    ensures
        match r {
            Some(x) => shape(s@) == Some(shape_view(x)),
            None => shape(s@) is None,
        },
{
    match object_literal_def(s) {
        Some(x) => {
            let ps = x.1;
            let ghost all = model::props(ps@);
            let mut ks: Vec<String> = Vec::new();
            let mut i: usize = 0;
            assert(model::texts(ks@) =~= Seq::empty());
            while i < ps.len()
                invariant
                    i <= ps.len(),
                    all == model::props(ps@),
                    literal(s@) == Some((x.0@, all)),
                    ident_keys(all.take(i as int)) == Some(model::texts(ks@)),
                decreases ps.len() - i,
            {
                assert(all.take(i + 1).drop_last() =~= all.take(i as int));
                assert(all[i as int] == ps@[i as int]@);
                match &ps[i].key {
                    PropertyKey::Ident(n) => {
                        let ghost before = model::texts(ks@);
                        ks.push(n.clone());
                        assert(model::texts(ks@) =~= before.push(n@));
                    },
                    _ => {
                        proof {
                            lemma_no_keys(all, i + 1);
                        }
                        return None;
                    },
                }
                i += 1;
            }
            assert(all.take(all.len() as int) =~= all);
            Some((x.0, ks))
        },
        None => None,
    }
}

proof fn lemma_no_keys(ps: Seq<Prop>, i: int)
    requires
        0 <= i <= ps.len(),
        ident_keys(ps.take(i)) is None,
    ensures
        ident_keys(ps) is None,
    decreases ps.len() - i,
{
    if i < ps.len() {
        assert(ps.take(i + 1).drop_last() =~= ps.take(i));
        lemma_no_keys(ps, i + 1);
    } else {
        assert(ps.take(i) =~= ps);
    }
}

fn find_names<'a>(m: &'a Vec<(ObjRef, Vec<String>)>, o: &ObjRef) -> (r: Option<&'a Vec<String>>)
    ensures
        match r {
            Some(ks) => names_of(shapes(m@), o@) == Some(model::texts(ks@)),
            None => names_of(shapes(m@), o@) is None,
        },
{
    let ghost all = shapes(m@);
    let mut i: usize = m.len();
    assert(all.take(all.len() as int) =~= all);
    while i > 0
        invariant
            i <= m.len(),
            all == shapes(m@),
            names_of(all, o@) == names_of(all.take(i as int), o@),
        decreases i,
    {
        assert(all.take(i as int).drop_last() =~= all.take(i - 1));
        assert(all[i - 1] == shape_view(m@[i - 1]));
        if m[i - 1].0.same(o) {
            return Some(&m[i - 1].1);
        }
        i -= 1;
    }
    None
}

fn is_reassigned(v: &Vec<&Statement>, o: &ObjRef) -> (r: bool)
    ensures
        r == reassigned(nested::seen(v@), o@),
{
    let ghost all = nested::seen(v@);
    let mut found: bool = false;
    let mut i: usize = 0;
    while i < v.len()
        invariant
            i <= v.len(),
            all == nested::seen(v@),
            found == reassigned(all.take(i as int), o@),
        decreases v.len() - i,
    {
        assert(all.take(i + 1).drop_last() =~= all.take(i as int));
        assert(all[i as int] == v@[i as int]@);
        if refs::obj_reassigned(v[i], o) {
            found = true;
        }
        i += 1;
    }
    assert(all.take(all.len() as int) =~= all);
    found
}

fn drop_reassigned(m: &Vec<(ObjRef, Vec<String>)>, s: &Vec<&Statement>) -> (r: Vec<
    (ObjRef, Vec<String>),
>)
    ensures
        shapes(r@) == still_known(shapes(m@), nested::seen(s@)),
{
    let ghost all = shapes(m@);
    let mut out: Vec<(ObjRef, Vec<String>)> = Vec::new();
    let mut i: usize = 0;
    assert(shapes(out@) =~= all.take(0));
    while i < m.len()
        invariant
            i <= m.len(),
            all == shapes(m@),
            shapes(out@) == still_known(all.take(i as int), nested::seen(s@)),
        decreases m.len() - i,
    {
        assert(all.take(i + 1).drop_last() =~= all.take(i as int));
        assert(all[i as int] == shape_view(m@[i as int]));
        if !is_reassigned(s, &m[i].0) {
            let ghost before = shapes(out@);
            let x = (m[i].0.copy(), clone_texts(&m[i].1));
            let ghost y = shape_view(x);
            out.push(x);
            assert(shapes(out@) =~= before.push(y));
        }
        i += 1;
    }
    assert(all.take(all.len() as int) =~= all);
    out
}

fn name_slot(m: &Vec<(ObjRef, Vec<String>)>, s: &Statement) -> (r: Option<Statement>)
    ensures
        match r {
            Some(t) => slot_named(shapes(m@), s@) == Some(t@),
            None => slot_named(shapes(m@), s@) is None,
        },
{
    proof {
        reveal_with_fuel(AssignTarget::view, 2);
    }
    match s {
        Statement::Assign { target: AssignTarget::Index { object, key }, value } => {
            if let Some(n) = find_slot_number(key) {
                if let Some(o) = refs::find_ref(object) {
                    if let Some(ks) = find_names(m, &o) {
                        assert(model::texts(ks@).len() == ks@.len());
                        if n < ks.len() {
                            assert(model::texts(ks@)[n as int] == ks@[n as int]@);
                            return Some(
                                Statement::Assign {
                                    target: AssignTarget::Member {
                                        object: object.clone(),
                                        property: ks[n].clone(),
                                    },
                                    value: value.clone(),
                                },
                            );
                        }
                    }
                }
            }
            None
        },
        _ => None,
    }
}

fn rewrite_step(m: &Vec<(ObjRef, Vec<String>)>, s: &Statement) -> (r: (
    Statement,
    Vec<(ObjRef, Vec<String>)>,
))
    ensures
        (r.0@, shapes(r.1@)) == named_step(shapes(m@), s@),
    decreases s, 1nat,
{
    if let Some(x) = object_ident_keys(s) {
        let mut one: Vec<&Statement> = Vec::new();
        one.push(s);
        assert(nested::seen(one@) =~= seq![s@]);
        let mut after = drop_reassigned(m, &one);
        let ghost before = shapes(after@);
        let ghost y = shape_view(x);
        after.push(x);
        assert(shapes(after@) =~= before.push(y));
        return (s.clone(), after);
    }
    if let Some(t) = name_slot(m, s) {
        let none: Vec<&Statement> = Vec::new();
        let after = drop_reassigned(m, &none);
        proof {
            assert(nested::seen(none@) =~= Seq::empty());
            lemma_still_known(shapes(m@));
        }
        return (t, after);
    }
    let t = rewrite_nested(m, s);
    let parts: Vec<&Statement> = nested::of_stmt(&t);
    let after = drop_reassigned(m, &parts);
    (t, after)
}

proof fn lemma_still_known(m: Seq<(Ref, Seq<Seq<char>>)>)
    ensures
        still_known(m, Seq::empty()) == m,
    decreases m.len(),
{
    if m.len() > 0 {
        lemma_still_known(m.drop_last());
        assert(m.drop_last().push(m.last()) =~= m);
    }
}

fn rewrite_slot_index_names_in(m: &Vec<(ObjRef, Vec<String>)>, v: &Vec<Statement>) -> (r: Vec<
    Statement,
>)
    ensures
        model::stmts(r@) == named(shapes(m@), model::stmts(v@)),
    decreases v, 1nat,
{
    let ghost all = model::stmts(v@);
    let ghost first = shapes(m@);
    let none: Vec<&Statement> = Vec::new();
    let mut known = drop_reassigned(m, &none);
    proof {
        assert(nested::seen(none@) =~= Seq::empty());
        lemma_still_known(first);
    }
    let mut out: Vec<Statement> = Vec::new();
    let mut i: usize = 0;
    assert(model::stmts(out@) =~= all.take(0));
    while i < v.len()
        invariant
            i <= v.len(),
            all == model::stmts(v@),
            (model::stmts(out@), shapes(known@)) == named_run(first, all.take(i as int)),
        decreases v.len() - i,
    {
        assert(all.take(i + 1).drop_last() =~= all.take(i as int));
        assert(all[i as int] == v@[i as int]@);
        let ghost before = model::stmts(out@);
        let x = rewrite_step(&known, &v[i]);
        let ghost t = x.0@;
        out.push(x.0);
        known = x.1;
        assert(model::stmts(out@) =~= before.push(t));
        i += 1;
    }
    assert(all.take(all.len() as int) =~= all);
    out
}

fn rewrite_nested(m: &Vec<(ObjRef, Vec<String>)>, s: &Statement) -> (r: Statement)
    ensures
        r@ == named_nested(shapes(m@), s@),
    decreases s, 0nat,
{
    match s {
        Statement::If { condition, then_body, else_body } => Statement::If {
            condition: condition.clone(),
            then_body: rewrite_slot_index_names_in(m, then_body),
            else_body: rewrite_slot_index_names_in(m, else_body),
        },
        Statement::While { condition, body } => Statement::While {
            condition: condition.clone(),
            body: rewrite_slot_index_names_in(m, body),
        },
        Statement::DoWhile { body, condition } => Statement::DoWhile {
            body: rewrite_slot_index_names_in(m, body),
            condition: condition.clone(),
        },
        Statement::For { init, condition, update, body } => Statement::For {
            init: clone_opt_stmt(init),
            condition: clone_opt_expr(condition),
            update: clone_opt_stmt(update),
            body: rewrite_slot_index_names_in(m, body),
        },
        Statement::ForIn { variable, object, body } => Statement::ForIn {
            variable: variable.clone(),
            object: object.clone(),
            body: rewrite_slot_index_names_in(m, body),
        },
        Statement::ForOf { variable, iterable, body } => Statement::ForOf {
            variable: variable.clone(),
            iterable: iterable.clone(),
            body: rewrite_slot_index_names_in(m, body),
        },
        Statement::Block(body) => Statement::Block(rewrite_slot_index_names_in(m, body)),
        Statement::TryCatch { try_body, catch_param, catch_body, finally_body } => Statement::TryCatch {
            try_body: rewrite_slot_index_names_in(m, try_body),
            catch_param: clone_opt_text(catch_param),
            catch_body: rewrite_slot_index_names_in(m, catch_body),
            finally_body: rewrite_slot_index_names_in(m, finally_body),
        },
        Statement::Switch { discriminant, cases, default } => Statement::Switch {
            discriminant: discriminant.clone(),
            cases: rewrite_nested_cases(m, cases),
            default: rewrite_nested_default(m, default),
        },
        _ => s.clone(),
    }
}

fn rewrite_nested_cases(m: &Vec<(ObjRef, Vec<String>)>, v: &Vec<(Expression, Vec<Statement>)>) -> (r: Vec<(Expression, Vec<Statement>)>)
    ensures
        model::case_arms(r@) == named_nested_cases(shapes(m@), model::case_arms(v@)),
    decreases v, 0nat,
{
    let mut out: Vec<(Expression, Vec<Statement>)> = Vec::new();
    let mut i: usize = 0;
    while i < v.len()
        invariant
            i <= v.len(),
            out.len() == i,
            forall|k: int|
                0 <= k < i ==> model::case_arm(#[trigger] out@[k]) == named_nested_case(
                    shapes(m@), model::case_arm(v@[k]),
                ),
        decreases v.len() - i,
    {
        out.push((v[i].0.clone(), rewrite_slot_index_names_in(m, &v[i].1)));
        i += 1;
    }
    assert(model::case_arms(out@) =~= named_nested_cases(shapes(m@), model::case_arms(v@)));
    out
}

fn rewrite_nested_default(m: &Vec<(ObjRef, Vec<String>)>, d: &Option<Vec<Statement>>) -> (r: Option<Vec<Statement>>)
    ensures
        model::opt_stmts(r) == named_nested_default(shapes(m@), model::opt_stmts(*d)),
    decreases d, 0nat,
{
    match d {
        Some(b) => Some(rewrite_slot_index_names_in(m, b)),
        None => None,
    }
}

/// Folds the writes of the slots of an object literal into the literal, where its placeholder can
/// take the value without changing the order of evaluation. Nested lists are not folded. A write
/// that stays is by name.
pub fn fold_slot_index_fills(statements: &mut Vec<Statement>)
    ensures
        model::stmts(final(statements)@) == fills_folded(model::stmts(old(statements)@)),
{
    fold_fills_here(false, statements);
    fold_fills_here(true, statements);
    let none: Vec<(ObjRef, Vec<String>)> = Vec::new();
    assert(shapes(none@) =~= Seq::empty());
    let out = rewrite_slot_index_names_in(&none, statements);
    *statements = out;
}

/// The slot fills of every list in a statement are named, and the rest of it stays.
pub proof fn lemma_slot_fills_of_every_list(m: Seq<(Ref, Seq<Seq<char>>)>, s: Stmt)
    ensures
        bodies::within(named_nested(m, s), s, |b: Seq<Stmt>| named(m, b)),
{
    let f = |b: Seq<Stmt>| named(m, b);
    let t = named_nested(m, s);
    if let Stmt::Switch { cases, default, .. } = s {
        let made = named_nested_cases(m, cases);
        let rest = named_nested_default(m, default);
        assert forall|i: int| 0 <= i < cases.len() implies #[trigger] made[i] == (
            cases[i].0,
            f(cases[i].1),
        ) by {
            assert(made[i] == named_nested_case(m, cases[i]));
        }
        assert(Seq::new(made.len(), |i: int| (made[i].0, Seq::<Stmt>::empty())) =~= Seq::new(
            cases.len(),
            |i: int| (cases[i].0, Seq::<Stmt>::empty()),
        ));
    }
    assert(bodies::bodies(t) =~= bodies::bodies(s).map_values(f));
}

} // verus!
