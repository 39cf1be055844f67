//! What holds of recovering elements twice.

use super::call_laws::{lemma_calls_settle, lemma_calls_stay_lowered};
use super::lower;
use super::props;
use super::props::Calls;
use crate::ir::bodies;
use crate::ir::model::{Expr, Key, Prop, Stmt, Target};
use vstd::prelude::*;

verus! {

proof fn lemma_prop_attrs(ps: Seq<Prop>, m: bool)
    requires
        lower::low_props(ps) == ps,
    ensures
        lower::low_attrs(lower::prop_attrs(ps, m)) == lower::prop_attrs(ps, m),
    decreases ps.len(),
{
    let t = lower::prop_attrs(ps, m);
    if ps.len() > 0 {
        let rest = ps.drop_last();
        assert forall|i: int| 0 <= i < ps.len() implies lower::low_prop(ps[i]) == ps[i] by {
            assert(lower::low_props(ps)[i] == lower::low_prop(ps[i]));
        }
        assert(lower::low_props(rest) =~= rest);
        lemma_prop_attrs(rest, m);
        let before = lower::prop_attrs(rest, m);
        assert forall|i: int| 0 <= i < t.len() implies lower::low_attrs(t)[i] == t[i] by {
            if i < before.len() {
                assert(lower::low_attrs(before)[i] == lower::low_attr(before[i]));
            } else {
                assert(lower::low_prop(ps.last()) == ps.last());
            }
        }
    }
    assert(lower::low_attrs(t) =~= t);
}

proof fn lemma_present(s: Seq<Option<Expr>>)
    requires
        lower::low_elements(s) == s,
    ensures
        lower::low_exprs(lower::present(s)) == lower::present(s),
    decreases s.len(),
{
    let t = lower::present(s);
    if s.len() > 0 {
        let rest = s.drop_last();
        assert forall|i: int| 0 <= i < s.len() implies lower::low_opt_expr(s[i]) == s[i] by {
            assert(lower::low_elements(s)[i] == lower::low_opt_expr(s[i]));
        }
        assert(lower::low_elements(rest) =~= rest);
        lemma_present(rest);
        let before = lower::present(rest);
        assert forall|i: int| 0 <= i < t.len() implies lower::low_exprs(t)[i] == t[i] by {
            if i < before.len() {
                assert(lower::low_exprs(before)[i] == lower::low_expr(before[i]));
            } else {
                assert(lower::low_opt_expr(s.last()) == s.last());
            }
        }
    }
    assert(lower::low_exprs(t) =~= t);
}

proof fn lemma_prop_children(ps: Seq<Prop>)
    requires
        lower::low_props(ps) == ps,
    ensures
        lower::low_exprs(lower::prop_children(ps)) == lower::prop_children(ps),
    decreases ps.len(),
{
    let t = lower::prop_children(ps);
    if ps.len() > 0 {
        let rest = ps.drop_last();
        assert forall|i: int| 0 <= i < ps.len() implies lower::low_prop(ps[i]) == ps[i] by {
            assert(lower::low_props(ps)[i] == lower::low_prop(ps[i]));
        }
        assert(lower::low_props(rest) =~= rest);
        lemma_prop_children(rest);
        let before = lower::prop_children(rest);
        let e = ps.last().value;
        assert(lower::low_expr(e) == e) by {
            assert(lower::low_prop(ps.last()) == ps.last());
        }
        let own = lower::children_of(e);
        assert(lower::low_exprs(own) == own) by {
            if let Expr::Array { elements } = e {
                lemma_present(elements);
            } else {
                assert(lower::low_exprs(own) =~= own);
            }
        }
        assert forall|i: int| 0 <= i < t.len() implies lower::low_exprs(t)[i] == t[i] by {
            if i < before.len() {
                assert(lower::low_exprs(before)[i] == lower::low_expr(before[i]));
            } else {
                let j = i - before.len();
                assert(lower::low_exprs(own)[j] == lower::low_expr(own[j]));
            }
        }
    }
    assert(lower::low_exprs(t) =~= t);
}

proof fn lemma_arg_attrs(args: Seq<Expr>, m: bool)
    requires
        lower::low_exprs(args) == args,
    ensures
        lower::low_attrs(lower::arg_attrs(args, m)) == lower::arg_attrs(args, m),
{
    let t = lower::arg_attrs(args, m);
    if args.len() >= 2 {
        assert(lower::low_exprs(args)[1] == lower::low_expr(args[1]));
        if let Expr::Object { properties } = args[1] {
            lemma_prop_attrs(properties, m);
        }
    }
    assert(lower::low_attrs(t) =~= t);
}

proof fn lemma_lowered(callee: Expr, args: Seq<Expr>)
    requires
        lower::low_expr(callee) == callee,
        lower::low_exprs(args) == args,
    ensures
        lower::low_expr(lower::lowered(callee, args)) == lower::lowered(callee, args),
{
    if lower::jsx_callee(callee) && args.len() > 0 && lower::tag(args[0]) is Some {
        let m = lower::modern(callee);
        let key = if m {
            lower::key_attr(args)
        } else {
            Seq::empty()
        };
        let own = lower::arg_attrs(args, m);
        let attrs = key + own;
        lemma_arg_attrs(args, m);
        assert forall|i: int| 0 <= i < attrs.len() implies lower::low_attrs(attrs)[i] == attrs[i] by {
            if i < key.len() {
                assert(lower::low_exprs(args)[2] == lower::low_expr(args[2]));
            } else {
                let j = i - key.len();
                assert(lower::low_attrs(own)[j] == lower::low_attr(own[j]));
            }
        }
        assert(lower::low_attrs(attrs) =~= attrs);
        let children = lower::arg_children(args, m);
        if m {
            if args.len() >= 2 {
                assert(lower::low_exprs(args)[1] == lower::low_expr(args[1]));
                if let Expr::Object { properties } = args[1] {
                    lemma_prop_children(properties);
                }
            }
        } else {
            assert forall|i: int| 0 <= i < children.len() implies lower::low_exprs(children)[i]
                == children[i] by {
                assert(lower::low_exprs(args)[i + 2] == lower::low_expr(args[i + 2]));
            }
        }
        assert(lower::low_exprs(children) =~= children);
    }
}

proof fn lemma_expr(e: Expr)
    ensures
        lower::low_expr(lower::low_expr(e)) == lower::low_expr(e),
    decreases e,
{
    match e {
        Expr::Binary { left, right, .. } => {
            lemma_expr(*left);
            lemma_expr(*right);
        },
        Expr::Unary { operand, .. } => {
            lemma_expr(*operand);
        },
        Expr::Conditional { condition, then_expr, else_expr } => {
            lemma_expr(*condition);
            lemma_expr(*then_expr);
            lemma_expr(*else_expr);
        },
        Expr::Member { object, property, .. } => {
            lemma_expr(*object);
            lemma_key(property);
        },
        Expr::Call { callee, arguments } => {
            lemma_expr(*callee);
            lemma_exprs(arguments);
            lemma_lowered(lower::low_expr(*callee), lower::low_exprs(arguments));
        },
        Expr::New { callee, arguments } => {
            lemma_expr(*callee);
            lemma_exprs(arguments);
        },
        Expr::Array { elements } => {
            lemma_elements(elements);
        },
        Expr::Object { properties } => {
            lemma_props(properties);
        },
        Expr::Assignment { target, value } => {
            lemma_expr(*target);
            lemma_expr(*value);
        },
        Expr::Spread(x) => {
            lemma_expr(*x);
        },
        Expr::TemplateLiteral { expressions, .. } => {
            lemma_exprs(expressions);
        },
        Expr::Yield { value, .. } => {
            lemma_expr(*value);
        },
        Expr::Await(x) => {
            lemma_expr(*x);
        },
        Expr::JSXElement { attributes, children, .. } => {
            lemma_attrs(attributes);
            lemma_exprs(children);
        },
        _ => {},
    }
}

proof fn lemma_key(e: Key)
    ensures
        lower::low_key(lower::low_key(e)) == lower::low_key(e),
    decreases e,
{
    match e {
        Key::Computed(x) => {
            lemma_expr(*x);
        },
        _ => {},
    }
}

proof fn lemma_target(e: Target)
    ensures
        lower::low_target(lower::low_target(e)) == lower::low_target(e),
    decreases e,
{
    match e {
        Target::Member { object, .. } => {
            lemma_expr(object);
        },
        Target::Index { object, key } => {
            lemma_expr(object);
            lemma_expr(key);
        },
        Target::DestructuringArray(x) => {
            lemma_slots(x);
        },
        Target::DestructuringArrayRest { elements, rest } => {
            lemma_slots(elements);
            lemma_target(*rest);
        },
        Target::DestructuringObject(x) => {
            lemma_fields(x);
        },
        Target::DestructuringObjectRest { properties, rest } => {
            lemma_fields(properties);
            lemma_target(*rest);
        },
        _ => {},
    }
}

proof fn lemma_stmt(e: Stmt)
    ensures
        lower::low_stmt(lower::low_stmt(e)) == lower::low_stmt(e),
    decreases e,
{
    match e {
        Stmt::Expr(x) => {
            lemma_expr(x);
        },
        Stmt::Let { value, .. } => {
            lemma_expr(value);
        },
        Stmt::Assign { target, value } => {
            lemma_target(target);
            lemma_expr(value);
        },
        Stmt::Return(x) => {
            lemma_opt_expr(x);
        },
        Stmt::Throw(x) => {
            lemma_expr(x);
        },
        Stmt::If { condition, then_body, else_body } => {
            lemma_expr(condition);
            lemma_stmts(then_body);
            lemma_stmts(else_body);
        },
        Stmt::While { condition, body } => {
            lemma_expr(condition);
            lemma_stmts(body);
        },
        Stmt::DoWhile { body, condition } => {
            lemma_stmts(body);
            lemma_expr(condition);
        },
        Stmt::For { init, condition, update, body } => {
            lemma_opt_stmt(init);
            lemma_opt_expr(condition);
            lemma_opt_stmt(update);
            lemma_stmts(body);
        },
        Stmt::ForIn { object, body, .. } => {
            lemma_expr(object);
            lemma_stmts(body);
        },
        Stmt::ForOf { iterable, body, .. } => {
            lemma_expr(iterable);
            lemma_stmts(body);
        },
        Stmt::Block(x) => {
            lemma_stmts(x);
        },
        Stmt::TryCatch { try_body, catch_body, finally_body, .. } => {
            lemma_stmts(try_body);
            lemma_stmts(catch_body);
            lemma_stmts(finally_body);
        },
        Stmt::Switch { discriminant, cases, default } => {
            lemma_expr(discriminant);
            lemma_cases(cases);
            lemma_opt_stmts(default);
        },
        Stmt::Class { super_class, .. } => {
            lemma_opt_expr(super_class);
        },
        _ => {},
    }
}

proof fn lemma_opt_expr(o: Option<Expr>)
    ensures
        lower::low_opt_expr(lower::low_opt_expr(o)) == lower::low_opt_expr(o),
    decreases o,
{
    if let Some(x) = o {
        lemma_expr(x);
    }
}

proof fn lemma_exprs(s: Seq<Expr>)
    ensures
        lower::low_exprs(lower::low_exprs(s)) == lower::low_exprs(s),
    decreases s,
{
    let t = lower::low_exprs(s);
    assert forall|i: int| 0 <= i < s.len() implies lower::low_exprs(t)[i] == t[i] by {
        lemma_expr(s[i]);
    }
    assert(lower::low_exprs(t) =~= t);
}

proof fn lemma_elements(s: Seq<Option<Expr>>)
    ensures
        lower::low_elements(lower::low_elements(s)) == lower::low_elements(s),
    decreases s,
{
    let t = lower::low_elements(s);
    assert forall|i: int| 0 <= i < s.len() implies lower::low_elements(t)[i] == t[i] by {
        lemma_opt_expr(s[i]);
    }
    assert(lower::low_elements(t) =~= t);
}

proof fn lemma_props(s: Seq<Prop>)
    ensures
        lower::low_props(lower::low_props(s)) == lower::low_props(s),
    decreases s,
{
    let t = lower::low_props(s);
    assert forall|i: int| 0 <= i < s.len() implies lower::low_props(t)[i] == t[i] by {
        lemma_key(s[i].key);
        lemma_expr(s[i].value);
    }
    assert(lower::low_props(t) =~= t);
}

proof fn lemma_attrs(s: Seq<(Seq<char>, Expr)>)
    ensures
        lower::low_attrs(lower::low_attrs(s)) == lower::low_attrs(s),
    decreases s,
{
    let t = lower::low_attrs(s);
    assert forall|i: int| 0 <= i < s.len() implies lower::low_attrs(t)[i] == t[i] by {
        lemma_expr(s[i].1);
    }
    assert(lower::low_attrs(t) =~= t);
}

proof fn lemma_slot(o: Option<(Target, Option<Expr>)>)
    ensures
        lower::low_slot(lower::low_slot(o)) == lower::low_slot(o),
    decreases o,
{
    if let Some(x) = o {
        lemma_target(x.0);
        lemma_opt_expr(x.1);
    }
}

proof fn lemma_slots(s: Seq<Option<(Target, Option<Expr>)>>)
    ensures
        lower::low_slots(lower::low_slots(s)) == lower::low_slots(s),
    decreases s,
{
    let t = lower::low_slots(s);
    assert forall|i: int| 0 <= i < s.len() implies lower::low_slots(t)[i] == t[i] by {
        lemma_slot(s[i]);
    }
    assert(lower::low_slots(t) =~= t);
}

proof fn lemma_fields(s: Seq<(Seq<char>, Target, Option<Expr>)>)
    ensures
        lower::low_fields(lower::low_fields(s)) == lower::low_fields(s),
    decreases s,
{
    let t = lower::low_fields(s);
    assert forall|i: int| 0 <= i < s.len() implies lower::low_fields(t)[i] == t[i] by {
        lemma_target(s[i].1);
        lemma_opt_expr(s[i].2);
    }
    assert(lower::low_fields(t) =~= t);
}

proof fn lemma_stmts(s: Seq<Stmt>)
    ensures
        lower::low_stmts(lower::low_stmts(s)) == lower::low_stmts(s),
    decreases s,
{
    let t = lower::low_stmts(s);
    assert forall|i: int| 0 <= i < s.len() implies lower::low_stmts(t)[i] == t[i] by {
        lemma_stmt(s[i]);
    }
    assert(lower::low_stmts(t) =~= t);
}

proof fn lemma_opt_stmt(o: Option<Box<Stmt>>)
    ensures
        lower::low_opt_stmt(lower::low_opt_stmt(o)) == lower::low_opt_stmt(o),
    decreases o,
{
    if let Some(x) = o {
        lemma_stmt(*x);
    }
}

proof fn lemma_opt_stmts(o: Option<Seq<Stmt>>)
    ensures
        lower::low_opt_stmts(lower::low_opt_stmts(o)) == lower::low_opt_stmts(o),
    decreases o,
{
    if let Some(x) = o {
        lemma_stmts(x);
    }
}

proof fn lemma_cases(s: Seq<(Expr, Seq<Stmt>)>)
    ensures
        lower::low_cases(lower::low_cases(s)) == lower::low_cases(s),
    decreases s,
{
    let t = lower::low_cases(s);
    assert forall|i: int| 0 <= i < s.len() implies lower::low_cases(t)[i] == t[i] by {
        lemma_expr(s[i].0);
        lemma_stmts(s[i].1);
    }
    assert(lower::low_cases(t) =~= t);
}

/// Lowering factory calls twice is lowering them once.
pub proof fn lemma_lowering_is_idempotent(s: Seq<Stmt>)
    ensures
        lower::low_stmts(lower::low_stmts(s)) == lower::low_stmts(s),
{
    lemma_stmts(s);
}

/// Nothing is resolved in an expression that lowering leaves alone: none of its calls becomes an
/// element.
proof fn lemma_subst_keeps(o: Seq<(Seq<char>, Expr)>, active: Seq<Seq<char>>, e: Expr)
    requires
        lower::low_expr(e) == e,
    ensures
        props::subst(o, active, e) == e,
    decreases e,
{
    match e {
        Expr::Call { callee, arguments } => {
            let f = lower::low_expr(*callee);
            let args = lower::low_exprs(arguments);
            assert(lower::lowered(f, args) == e);
            assert(f == *callee && args == arguments);
            lemma_subst_keeps(o, active, *callee);
            lemma_subst_list(o, active, arguments);
        },
        Expr::New { callee, arguments } => {
            lemma_subst_keeps(o, active, *callee);
            lemma_subst_list(o, active, arguments);
        },
        Expr::Binary { left, right, .. } => {
            lemma_subst_keeps(o, active, *left);
            lemma_subst_keeps(o, active, *right);
        },
        Expr::Unary { operand, .. } => lemma_subst_keeps(o, active, *operand),
        Expr::Spread(x) => lemma_subst_keeps(o, active, *x),
        Expr::Await(x) => lemma_subst_keeps(o, active, *x),
        Expr::Yield { value, .. } => lemma_subst_keeps(o, active, *value),
        Expr::Member { object, .. } => lemma_subst_keeps(o, active, *object),
        Expr::Conditional { condition, then_expr, else_expr } => {
            lemma_subst_keeps(o, active, *condition);
            lemma_subst_keeps(o, active, *then_expr);
            lemma_subst_keeps(o, active, *else_expr);
        },
        Expr::Array { elements } => {
            let t = props::subst_elements(o, active, elements);
            assert forall|i: int| 0 <= i < elements.len() implies t[i] == elements[i] by {
                assert(lower::low_elements(elements)[i] == lower::low_opt_expr(elements[i]));
                if let Some(x) = elements[i] {
                    lemma_subst_keeps(o, active, x);
                }
            }
            assert(t =~= elements);
        },
        Expr::Object { properties } => {
            let t = props::subst_props(o, active, properties);
            assert forall|i: int| 0 <= i < properties.len() implies t[i] == properties[i] by {
                assert(lower::low_props(properties)[i] == lower::low_prop(properties[i]));
                lemma_subst_keeps(o, active, properties[i].value);
            }
            assert(t =~= properties);
        },
        Expr::Assignment { target, value } => {
            lemma_subst_keeps(o, active, *target);
            lemma_subst_keeps(o, active, *value);
        },
        Expr::JSXElement { attributes, children, .. } => {
            let t = props::subst_attrs(o, active, attributes);
            assert forall|i: int| 0 <= i < attributes.len() implies t[i] == attributes[i] by {
                assert(lower::low_attrs(attributes)[i] == lower::low_attr(attributes[i]));
                lemma_subst_keeps(o, active, attributes[i].1);
            }
            assert(t =~= attributes);
            lemma_subst_list(o, active, children);
        },
        _ => {},
    }
}

proof fn lemma_subst_list(o: Seq<(Seq<char>, Expr)>, active: Seq<Seq<char>>, s: Seq<Expr>)
    requires
        lower::low_exprs(s) == s,
    ensures
        props::subst_exprs(o, active, s) == s,
    decreases s,
{
    let t = props::subst_exprs(o, active, s);
    assert forall|i: int| 0 <= i < s.len() implies t[i] == s[i] by {
        assert(lower::low_exprs(s)[i] == lower::low_expr(s[i]));
        lemma_subst_keeps(o, active, s[i]);
    }
    assert(t =~= s);
}

proof fn lemma_resolved_keeps(s: Seq<Stmt>)
    requires
        lower::low_stmts(s) == s,
    ensures
        props::resolved(Calls::Elements, s) == s,
    decreases s, 1nat,
{
    if s.len() > 0 {
        let rest = s.drop_last();
        assert forall|i: int| 0 <= i < s.len() implies lower::low_stmt(s[i]) == s[i] by {
            assert(lower::low_stmts(s)[i] == lower::low_stmt(s[i]));
        }
        assert(lower::low_stmts(rest) =~= rest);
        lemma_resolved_keeps(rest);
        assert(lower::low_stmt(s[s.len() - 1]) == s.last());
        lemma_step_keeps(props::run(Calls::Elements, rest).1, s.last());
        assert(rest.push(s.last()) =~= s);
    } else {
        assert(props::resolved(Calls::Elements, s) =~= s);
    }
}

proof fn lemma_step_keeps(o: Seq<(Seq<char>, Expr)>, s: Stmt)
    requires
        lower::low_stmt(s) == s,
    ensures
        props::step(Calls::Elements, o, s).0 == s,
    decreases s, 1nat,
{
    match s {
        Stmt::Let { value, .. } => lemma_subst_keeps(o, Seq::empty(), value),
        Stmt::Assign { value, .. } => lemma_subst_keeps(o, Seq::empty(), value),
        Stmt::Expr(e) => lemma_subst_keeps(o, Seq::empty(), e),
        Stmt::Return(Some(e)) => lemma_subst_keeps(o, Seq::empty(), e),
        Stmt::Throw(e) => lemma_subst_keeps(o, Seq::empty(), e),
        _ => lemma_nested_keeps(s),
    }
}

proof fn lemma_nested_keeps(s: Stmt)
    requires
        lower::low_stmt(s) == s,
    ensures
        props::resolved_nested(Calls::Elements, s) == s,
    decreases s, 0nat,
{
    match s {
        Stmt::If { then_body, else_body, .. } => {
            lemma_resolved_keeps(then_body);
            lemma_resolved_keeps(else_body);
        },
        Stmt::While { body, .. } => lemma_resolved_keeps(body),
        Stmt::DoWhile { body, .. } => lemma_resolved_keeps(body),
        Stmt::For { body, .. } => lemma_resolved_keeps(body),
        Stmt::ForIn { body, .. } => lemma_resolved_keeps(body),
        Stmt::ForOf { body, .. } => lemma_resolved_keeps(body),
        Stmt::Block(body) => lemma_resolved_keeps(body),
        Stmt::TryCatch { try_body, catch_body, finally_body, .. } => {
            lemma_resolved_keeps(try_body);
            lemma_resolved_keeps(catch_body);
            lemma_resolved_keeps(finally_body);
        },
        Stmt::Switch { cases, default, .. } => {
            let t = props::resolved_nested_cases(Calls::Elements, cases);
            assert forall|i: int| 0 <= i < cases.len() implies t[i] == cases[i] by {
                assert(lower::low_cases(cases)[i] == lower::low_case(cases[i]));
                lemma_resolved_keeps(cases[i].1);
            }
            assert(t =~= cases);
            if let Some(body) = default {
                lemma_resolved_keeps(body);
            }
        },
        _ => {},
    }
}

/// Recovering elements twice is recovering them once.
pub proof fn lemma_reconstruction_is_idempotent(s: Seq<Stmt>)
    ensures
        super::reconstructed(super::reconstructed(s)) == super::reconstructed(s),
{
    let low = lower::low_stmts(props::resolved(Calls::Elements, s));
    lemma_lowering_is_idempotent(props::resolved(Calls::Elements, s));
    lemma_calls_stay_lowered(low);
    lemma_calls_settle(low);
    lemma_resolved_keeps(super::reconstructed(s));
}

/// The properties of every list in a statement are resolved, and the rest of it stays.
pub proof fn lemma_properties_of_every_list(c: Calls, s: Stmt)
    ensures
        bodies::within(props::resolved_nested(c, s), s, |b: Seq<Stmt>| props::resolved(c, b)),
{
    let f = |b: Seq<Stmt>| props::resolved(c, b);
    let t = props::resolved_nested(c, s);
    if let Stmt::Switch { cases, default, .. } = s {
        let made = props::resolved_nested_cases(c, cases);
        let rest = props::resolved_nested_default(c, default);
        assert forall|i: int| 0 <= i < cases.len() implies #[trigger] made[i] == (
            cases[i].0,
            f(cases[i].1),
        ) by {
            assert(made[i] == props::resolved_nested_case(c, cases[i]));
        }
        assert(Seq::new(made.len(), |i: int| (made[i].0, Seq::<Stmt>::empty())) =~= Seq::new(
            cases.len(),
            |i: int| (cases[i].0, Seq::<Stmt>::empty()),
        ));
    }
    assert(bodies::bodies(t) =~= bodies::bodies(s).map_values(f));
}

} // verus!
