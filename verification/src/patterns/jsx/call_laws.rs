//! What holds of the properties of calls that stay calls.

use super::calls;
use super::calls::{lemma_found, lemma_place};
use super::lower;
use super::props;
use super::props::{lemma_written_records_go, Calls};
use crate::ir::model::{Expr, Stmt, Target, Val};
use crate::ir::visit;
use vstd::prelude::*;

verus! {

/// Whether a call that stays a call keeps a variable as its properties: nothing is recorded for the
/// variable, or its literal would be put in again and again.
pub open spec fn stuck(o: Seq<(Seq<char>, Expr)>, n: Seq<char>) -> bool {
    match props::known(o, n) {
        Some(x) => calls::takes(x, n),
        None => true,
    }
}

/// Whether a record holds an object, and its calls keep their variables under the records before
/// it.
pub open spec fn closed_under(o: Seq<(Seq<char>, Expr)>, r: (Seq<char>, Expr)) -> bool {
    &&& r.1 is Object
    &&& forall|n: Seq<char>| #[trigger] calls::takes(r.1, n) ==> n == r.0 || stuck(o, n)
}

/// Whether each record was resolved when it was made.
pub open spec fn in_order(o: Seq<(Seq<char>, Expr)>) -> bool
    decreases o.len(),
{
    o.len() == 0 || in_order(o.drop_last()) && closed_under(o.drop_last(), o.last())
}

/// Whether no record holds a call that lowering changes.
pub open spec fn all_lowered(o: Seq<(Seq<char>, Expr)>) -> bool {
    forall|i: int| 0 <= i < o.len() ==> lower::low_expr((#[trigger] o[i]).1) == o[i].1
}

proof fn lemma_without_in_order(o: Seq<(Seq<char>, Expr)>, names: Seq<Seq<char>>)
    requires
        in_order(o),
    ensures
        in_order(props::without(o, names)),
    decreases o.len(),
{
    if o.len() > 0 {
        let rest = o.drop_last();
        let kept = props::without(rest, names);
        lemma_without_in_order(rest, names);
        if !names.contains(o.last().0) {
            assert(kept.push(o.last()).drop_last() =~= kept);
            assert forall|n: Seq<char>| #[trigger] calls::takes(o.last().1, n) implies n
                == o.last().0 || stuck(kept, n) by {
                lemma_written_records_go(rest, names, n);
            }
        }
    }
}

proof fn lemma_without_lowered(o: Seq<(Seq<char>, Expr)>, names: Seq<Seq<char>>)
    requires
        all_lowered(o),
    ensures
        all_lowered(props::without(o, names)),
    decreases o.len(),
{
    if o.len() > 0 {
        let rest = o.drop_last();
        assert(forall|i: int| 0 <= i < rest.len() ==> #[trigger] rest[i] == o[i]);
        lemma_without_lowered(rest, names);
        assert(o[o.len() - 1] == o.last());
    }
}

proof fn lemma_record_is_closed(o: Seq<(Seq<char>, Expr)>, b: int)
    requires
        in_order(o),
        0 <= b < o.len(),
    ensures
        closed_under(o.take(b), o[b]),
    decreases o.len(),
{
    if b < o.len() - 1 {
        lemma_record_is_closed(o.drop_last(), b);
        assert(o.drop_last().take(b) =~= o.take(b));
    } else {
        assert(o.drop_last() =~= o.take(b));
    }
}

proof fn lemma_place_among_first(o: Seq<(Seq<char>, Expr)>, b: int, n: Seq<char>)
    requires
        0 <= b <= o.len(),
    ensures
        calls::place(o, n) >= b || calls::place(o, n) == calls::place(o.take(b), n),
    decreases o.len(),
{
    if b == o.len() {
        assert(o.take(b) =~= o);
    } else if o.last().0 != n {
        lemma_place_among_first(o.drop_last(), b, n);
        assert(o.drop_last().take(b) =~= o.take(b));
    }
}

/// A call in the recorded literal of a name keeps its variable, or the variable was recorded later.
proof fn lemma_literal(o: Seq<(Seq<char>, Expr)>, n: Seq<char>, m: Seq<char>)
    requires
        in_order(o),
        calls::place(o, n) >= 0,
        calls::takes(o[calls::place(o, n)].1, m),
    ensures
        stuck(o, m) || calls::place(o, m) > calls::place(o, n),
{
    let b = calls::place(o, n);
    lemma_place(o, n);
    lemma_place(o, m);
    lemma_record_is_closed(o, b);
    if m != n {
        assert(stuck(o.take(b), m));
        lemma_place_among_first(o, b, m);
        lemma_place(o.take(b), m);
        if calls::place(o, m) < b && calls::place(o, m) >= 0 {
            assert(o.take(b)[calls::place(o, m)] == o[calls::place(o, m)]);
        }
    }
}

/// Putting literals in keeps what an expression is as a callee or a tag.
proof fn lemma_put_kind(o: Seq<(Seq<char>, Expr)>, from: int, e: Expr)
    ensures
        lower::factory(calls::put(o, from, e)) == lower::factory(e),
        lower::tag(calls::put(o, from, e)) == lower::tag(e),
        e is Value ==> calls::put(o, from, e) == e,
        calls::put(o, from, e) is Value ==> e is Value,
        calls::put(o, from, e) is Object <==> e is Object,
{
    reveal_with_fuel(calls::put, 2);
}

#[verifier::rlimit(40)]
proof fn lemma_call_leaves_stuck(
    o: Seq<(Seq<char>, Expr)>,
    from: int,
    callee: Expr,
    arguments: Seq<Expr>,
    m: Seq<char>,
)
    requires
        in_order(o),
        calls::stays(callee, arguments) && arguments[1] == Expr::Value(Val::Variable(m)) ==> stuck(
            o,
            m,
        ) || calls::place(o, m) >= from,
        calls::takes(calls::put(o, from, callee), m) ==> stuck(o, m),
        calls::takes_exprs(calls::put_exprs(o, from, arguments), m) ==> stuck(o, m),
        calls::stays(callee, arguments) ==> (calls::found(o, from, arguments[1]) matches Some(b)
            ==> calls::takes(calls::put(o, b + 1, o[b].1), m) ==> stuck(o, m)),
    ensures
        ({
            let e = Expr::Call { callee: Box::new(callee), arguments };
            calls::takes(calls::put(o, from, e), m) ==> stuck(o, m)
        }),
{
    let e = Expr::Call { callee: Box::new(callee), arguments };
    let f = calls::put(o, from, callee);
    let args = calls::put_exprs(o, from, arguments);
    lemma_put_kind(o, from, callee);
    if arguments.len() >= 2 {
        lemma_put_kind(o, from, arguments[0]);
        lemma_put_kind(o, from, arguments[1]);
        assert(args[0] == calls::put(o, from, arguments[0]));
        assert(args[1] == calls::put(o, from, arguments[1]));
    }
    lemma_place(o, m);
    if calls::stays(callee, arguments) && calls::found(o, from, arguments[1]) is Some {
        let b = calls::found(o, from, arguments[1])->Some_0;
        let y = calls::put(o, b + 1, o[b].1);
        let all = args.update(1, y);
        lemma_found(o, from, arguments[1]);
        lemma_record_is_closed(o, b);
        lemma_put_kind(o, b + 1, o[b].1);
        assert(all[1] is Object);
        assert forall|i: int| 0 <= i < all.len() && calls::takes(#[trigger] all[i], m) implies stuck(
            o,
            m,
        ) by {
            if i != 1 {
                assert(calls::takes(args[i], m));
            }
        }
        assert(calls::takes_exprs(all, m) ==> stuck(o, m));
        assert(calls::put(o, from, e) == Expr::Call { callee: Box::new(f), arguments: all });
    } else {
        assert(calls::put(o, from, e) == Expr::Call { callee: Box::new(f), arguments: args });
    }
}

/// Every variable that a call still has as its properties, once the records are put in, stays.
#[verifier::rlimit(40)]
proof fn lemma_put_leaves_stuck(o: Seq<(Seq<char>, Expr)>, from: int, e: Expr, m: Seq<char>)
    requires
        in_order(o),
        calls::takes(e, m) ==> stuck(o, m) || calls::place(o, m) >= from,
    ensures
        calls::takes(calls::put(o, from, e), m) ==> stuck(o, m),
    decreases o.len() - from, e,
{
    match e {
        Expr::Call { callee, arguments } => {
            lemma_put_leaves_stuck(o, from, *callee, m);
            lemma_list_leaves_stuck(o, from, arguments, m);
            if calls::stays(*callee, arguments) {
                if let Some(b) = calls::found(o, from, arguments[1]) {
                    let n = arguments[1]->Value_0->Variable_0;
                    lemma_found(o, from, arguments[1]);
                    if calls::takes(o[b].1, m) {
                        lemma_literal(o, n, m);
                    }
                    lemma_put_leaves_stuck(o, b + 1, o[b].1, m);
                }
            }
            lemma_call_leaves_stuck(o, from, *callee, arguments, m);
        },
        Expr::New { callee, arguments } => {
            lemma_put_leaves_stuck(o, from, *callee, m);
            lemma_list_leaves_stuck(o, from, arguments, m);
        },
        Expr::Binary { left, right, .. } => {
            lemma_put_leaves_stuck(o, from, *left, m);
            lemma_put_leaves_stuck(o, from, *right, m);
        },
        Expr::Unary { operand, .. } => lemma_put_leaves_stuck(o, from, *operand, m),
        Expr::Spread(x) => lemma_put_leaves_stuck(o, from, *x, m),
        Expr::Await(x) => lemma_put_leaves_stuck(o, from, *x, m),
        Expr::Yield { value, .. } => lemma_put_leaves_stuck(o, from, *value, m),
        Expr::Member { object, .. } => lemma_put_leaves_stuck(o, from, *object, m),
        Expr::Conditional { condition, then_expr, else_expr } => {
            lemma_put_leaves_stuck(o, from, *condition, m);
            lemma_put_leaves_stuck(o, from, *then_expr, m);
            lemma_put_leaves_stuck(o, from, *else_expr, m);
        },
        Expr::Array { elements } => {
            let t = calls::put_elements(o, from, elements);
            assert forall|i: int|
                0 <= i < elements.len() && calls::takes_opt(#[trigger] t[i], m) implies stuck(o, m) by {
                assert(calls::takes_opt(elements[i], m) ==> calls::takes_elements(elements, m));
                if let Some(x) = elements[i] {
                    lemma_put_leaves_stuck(o, from, x, m);
                }
            }
            assert(calls::takes_elements(t, m) ==> stuck(o, m));
        },
        Expr::Object { properties } => {
            let t = calls::put_props(o, from, properties);
            assert forall|i: int|
                0 <= i < properties.len() && calls::takes_prop(#[trigger] t[i], m) implies stuck(o, m) by {
                assert(calls::takes_prop(properties[i], m) ==> calls::takes_props(properties, m));
                lemma_put_leaves_stuck(o, from, properties[i].value, m);
            }
            assert(calls::takes_props(t, m) ==> stuck(o, m));
        },
        Expr::Assignment { target, value } => {
            lemma_put_leaves_stuck(o, from, *target, m);
            lemma_put_leaves_stuck(o, from, *value, m);
        },
        Expr::JSXElement { attributes, children, .. } => {
            let t = calls::put_attrs(o, from, attributes);
            assert forall|i: int|
                0 <= i < attributes.len() && calls::takes_attr(#[trigger] t[i], m) implies stuck(o, m) by {
                assert(calls::takes_attr(attributes[i], m) ==> calls::takes_attrs(attributes, m));
                lemma_put_leaves_stuck(o, from, attributes[i].1, m);
            }
            lemma_list_leaves_stuck(o, from, children, m);
            assert(calls::takes_attrs(t, m) ==> stuck(o, m));
        },
        _ => {},
    }
}

proof fn lemma_list_leaves_stuck(
    o: Seq<(Seq<char>, Expr)>,
    from: int,
    s: Seq<Expr>,
    m: Seq<char>,
)
    requires
        in_order(o),
        calls::takes_exprs(s, m) ==> stuck(o, m) || calls::place(o, m) >= from,
    ensures
        calls::takes_exprs(calls::put_exprs(o, from, s), m) ==> stuck(o, m),
    decreases o.len() - from, s,
{
    let t = calls::put_exprs(o, from, s);
    assert forall|i: int| 0 <= i < s.len() && calls::takes(#[trigger] t[i], m) implies stuck(
        o,
        m,
    ) by {
        assert(calls::takes(s[i], m) ==> calls::takes_exprs(s, m));
        lemma_put_leaves_stuck(o, from, s[i], m);
    }
}

/// Nothing is put into an expression whose calls keep their variables.
#[verifier::rlimit(40)]
proof fn lemma_put_keeps(o: Seq<(Seq<char>, Expr)>, from: int, e: Expr)
    requires
        forall|n: Seq<char>| #[trigger] calls::takes(e, n) ==> stuck(o, n),
    ensures
        calls::put(o, from, e) == e,
    decreases e, 0nat,
{
    match e {
        Expr::Call { callee, arguments } => {
            assert forall|n: Seq<char>| #[trigger] calls::takes(*callee, n) implies stuck(o, n) by {
                assert(calls::takes(e, n));
            }
            lemma_put_keeps(o, from, *callee);
            assert forall|n: Seq<char>| #[trigger] calls::takes_exprs(arguments, n) implies stuck(
                o,
                n,
            ) by {
                assert(calls::takes(e, n));
            }
            lemma_list_keeps(o, from, arguments);
            if calls::stays(*callee, arguments) {
                if let Expr::Value(Val::Variable(n)) = arguments[1] {
                    assert(calls::takes(e, n));
                    lemma_place(o, n);
                }
            }
        },
        Expr::New { callee, arguments } => {
            assert forall|n: Seq<char>| #[trigger] calls::takes(*callee, n) implies stuck(o, n) by {
                assert(calls::takes(e, n));
            }
            lemma_put_keeps(o, from, *callee);
            assert forall|n: Seq<char>| #[trigger] calls::takes_exprs(arguments, n) implies stuck(
                o,
                n,
            ) by {
                assert(calls::takes(e, n));
            }
            lemma_list_keeps(o, from, arguments);
        },
        Expr::Binary { left, right, .. } => {
            lemma_part_keeps(o, from, e, *left);
            lemma_part_keeps(o, from, e, *right);
        },
        Expr::Unary { operand, .. } => lemma_part_keeps(o, from, e, *operand),
        Expr::Spread(x) => lemma_part_keeps(o, from, e, *x),
        Expr::Await(x) => lemma_part_keeps(o, from, e, *x),
        Expr::Yield { value, .. } => lemma_part_keeps(o, from, e, *value),
        Expr::Member { object, .. } => lemma_part_keeps(o, from, e, *object),
        Expr::Conditional { condition, then_expr, else_expr } => {
            lemma_part_keeps(o, from, e, *condition);
            lemma_part_keeps(o, from, e, *then_expr);
            lemma_part_keeps(o, from, e, *else_expr);
        },
        Expr::Array { elements } => {
            let t = calls::put_elements(o, from, elements);
            assert forall|i: int| 0 <= i < elements.len() implies t[i] == elements[i] by {
                if let Some(x) = elements[i] {
                    assert forall|n: Seq<char>| #[trigger] calls::takes(x, n) implies calls::takes(
                        e,
                        n,
                    ) by {
                        assert(calls::takes_opt(elements[i], n));
                        assert(calls::takes_elements(elements, n));
                    }
                    lemma_part_keeps(o, from, e, x);
                }
            }
            assert(t =~= elements);
        },
        Expr::Object { properties } => {
            let t = calls::put_props(o, from, properties);
            assert forall|i: int| 0 <= i < properties.len() implies t[i] == properties[i] by {
                assert forall|n: Seq<char>| #[trigger]
                    calls::takes(properties[i].value, n) implies calls::takes(e, n) by {
                    assert(calls::takes_prop(properties[i], n));
                    assert(calls::takes_props(properties, n));
                }
                lemma_part_keeps(o, from, e, properties[i].value);
            }
            assert(t =~= properties);
        },
        Expr::Assignment { target, value } => {
            lemma_part_keeps(o, from, e, *target);
            lemma_part_keeps(o, from, e, *value);
        },
        Expr::JSXElement { attributes, children, .. } => {
            let t = calls::put_attrs(o, from, attributes);
            assert forall|i: int| 0 <= i < attributes.len() implies t[i] == attributes[i] by {
                assert forall|n: Seq<char>| #[trigger]
                    calls::takes(attributes[i].1, n) implies calls::takes(e, n) by {
                    assert(calls::takes_attr(attributes[i], n));
                    assert(calls::takes_attrs(attributes, n));
                }
                lemma_part_keeps(o, from, e, attributes[i].1);
            }
            assert(t =~= attributes);
            assert forall|n: Seq<char>| #[trigger] calls::takes_exprs(children, n) implies stuck(
                o,
                n,
            ) by {
                assert(calls::takes(e, n));
            }
            lemma_list_keeps(o, from, children);
        },
        _ => {},
    }
}

proof fn lemma_part_keeps(o: Seq<(Seq<char>, Expr)>, from: int, e: Expr, x: Expr)
    requires
        forall|n: Seq<char>| #[trigger] calls::takes(e, n) ==> stuck(o, n),
        forall|n: Seq<char>| #[trigger] calls::takes(x, n) ==> calls::takes(e, n),
    ensures
        calls::put(o, from, x) == x,
    decreases x, 1nat,
{
    lemma_put_keeps(o, from, x);
}

proof fn lemma_list_keeps(o: Seq<(Seq<char>, Expr)>, from: int, s: Seq<Expr>)
    requires
        forall|n: Seq<char>| #[trigger] calls::takes_exprs(s, n) ==> stuck(o, n),
    ensures
        calls::put_exprs(o, from, s) == s,
    decreases s, 0nat,
{
    let t = calls::put_exprs(o, from, s);
    assert forall|i: int| 0 <= i < s.len() implies t[i] == s[i] by {
        assert forall|n: Seq<char>| #[trigger] calls::takes(s[i], n) implies stuck(o, n) by {
            assert(calls::takes_exprs(s, n));
        }
        lemma_put_keeps(o, from, s[i]);
    }
    assert(t =~= s);
}

/// Putting the records in leaves nothing to put in.
proof fn lemma_put_settles(o: Seq<(Seq<char>, Expr)>, e: Expr)
    requires
        in_order(o),
    ensures
        calls::put(o, 0, calls::put(o, 0, e)) == calls::put(o, 0, e),
        forall|n: Seq<char>| #[trigger] calls::takes(calls::put(o, 0, e), n) ==> stuck(o, n),
{
    let v = calls::put(o, 0, e);
    assert forall|n: Seq<char>| #[trigger] calls::takes(v, n) implies stuck(o, n) by {
        lemma_place(o, n);
        lemma_put_leaves_stuck(o, 0, e, n);
    }
    lemma_put_keeps(o, 0, v);
}

proof fn lemma_bound_in_order(o: Seq<(Seq<char>, Expr)>, name: Seq<char>, v: Expr)
    requires
        in_order(o),
        forall|n: Seq<char>| #[trigger] calls::takes(v, n) ==> stuck(o, n),
    ensures
        in_order(props::bound(o, name, v)),
{
    let w = props::expr_writes(visit::expr_visits(v));
    let first = props::without(o, w);
    let kept = props::without(first, seq![name]);
    lemma_without_in_order(o, w);
    lemma_without_in_order(first, seq![name]);
    if v is Object {
        assert(kept.push((name, v)).drop_last() =~= kept);
        assert forall|n: Seq<char>| #[trigger] calls::takes(v, n) implies n == name || stuck(
            kept,
            n,
        ) by {
            lemma_written_records_go(o, w, n);
            lemma_written_records_go(first, seq![name], n);
        }
    }
}

proof fn lemma_step_settles(o: Seq<(Seq<char>, Expr)>, s: Stmt)
    requires
        in_order(o),
    ensures
        ({
            let x = props::step(Calls::Others, o, s);
            props::step(Calls::Others, o, x.0) == x && in_order(x.1)
        }),
    decreases s, 1nat,
{
    match s {
        Stmt::Let { name, value, .. } => {
            lemma_put_settles(o, value);
            lemma_bound_in_order(o, name, calls::put(o, 0, value));
        },
        Stmt::Assign { target: Target::Variable(name), value } => {
            lemma_put_settles(o, value);
            lemma_bound_in_order(o, name, calls::put(o, 0, value));
        },
        _ => {
            let t = props::value_resolved(Calls::Others, o, props::resolved_nested(
                Calls::Others,
                s,
            ));
            match s {
                Stmt::Assign { value, .. } => lemma_put_settles(o, value),
                Stmt::Expr(e) => lemma_put_settles(o, e),
                Stmt::Return(Some(e)) => lemma_put_settles(o, e),
                Stmt::Throw(e) => lemma_put_settles(o, e),
                _ => lemma_nested_settles(s),
            }
            lemma_without_in_order(o, props::writes(t));
        },
    }
}

proof fn lemma_run_settles(s: Seq<Stmt>)
    ensures
        props::run(Calls::Others, props::run(Calls::Others, s).0) == props::run(Calls::Others, s),
        in_order(props::run(Calls::Others, s).1),
    decreases s, 2nat,
{
    if s.len() > 0 {
        let before = props::run(Calls::Others, s.drop_last());
        lemma_run_settles(s.drop_last());
        lemma_step_settles(before.1, s.last());
        let x = props::step(Calls::Others, before.1, s.last());
        let t = before.0.push(x.0);
        assert(t.drop_last() =~= before.0);
        assert(t.last() == x.0);
    }
}

proof fn lemma_nested_settles(s: Stmt)
    ensures
        props::resolved_nested(Calls::Others, props::resolved_nested(Calls::Others, s))
            == props::resolved_nested(Calls::Others, s),
    decreases s, 0nat,
{
    match s {
        Stmt::If { then_body, else_body, .. } => {
            lemma_run_settles(then_body);
            lemma_run_settles(else_body);
        },
        Stmt::While { body, .. } => lemma_run_settles(body),
        Stmt::DoWhile { body, .. } => lemma_run_settles(body),
        Stmt::For { body, .. } => lemma_run_settles(body),
        Stmt::ForIn { body, .. } => lemma_run_settles(body),
        Stmt::ForOf { body, .. } => lemma_run_settles(body),
        Stmt::Block(body) => lemma_run_settles(body),
        Stmt::TryCatch { try_body, catch_body, finally_body, .. } => {
            lemma_run_settles(try_body);
            lemma_run_settles(catch_body);
            lemma_run_settles(finally_body);
        },
        Stmt::Switch { cases, default, .. } => {
            let t = props::resolved_nested_cases(Calls::Others, cases);
            let u = props::resolved_nested_cases(Calls::Others, t);
            assert forall|i: int| 0 <= i < t.len() implies u[i] == t[i] by {
                lemma_run_settles(cases[i].1);
            }
            assert(u =~= t);
            if let Some(body) = default {
                lemma_run_settles(body);
            }
        },
        _ => {},
    }
}

/// Putting literals into calls that stay calls a second time changes nothing.
pub proof fn lemma_calls_settle(s: Seq<Stmt>)
    ensures
        props::resolved(Calls::Others, props::resolved(Calls::Others, s)) == props::resolved(
            Calls::Others,
            s,
        ),
{
    lemma_run_settles(s);
}

/// Lowered literals put into a lowered expression leave it lowered.
#[verifier::rlimit(40)]
proof fn lemma_put_lowered(o: Seq<(Seq<char>, Expr)>, from: int, e: Expr)
    requires
        all_lowered(o),
        lower::low_expr(e) == e,
    ensures
        lower::low_expr(calls::put(o, from, e)) == calls::put(o, from, e),
    decreases o.len() - from, e,
{
    match e {
        Expr::Call { callee, arguments } => {
            let f = lower::low_expr(*callee);
            let args = lower::low_exprs(arguments);
            assert(lower::lowered(f, args) == e);
            assert(f == *callee && args == arguments);
            lemma_put_lowered(o, from, *callee);
            lemma_put_kind(o, from, *callee);
            lemma_list_lowered(o, from, arguments);
            let plain = calls::put_exprs(o, from, arguments);
            if arguments.len() > 0 {
                lemma_put_kind(o, from, arguments[0]);
                assert(plain[0] == calls::put(o, from, arguments[0]));
            }
            if calls::stays(*callee, arguments) {
                if let Some(b) = calls::found(o, from, arguments[1]) {
                    lemma_found(o, from, arguments[1]);
                    lemma_put_lowered(o, b + 1, o[b].1);
                    let all = plain.update(1, calls::put(o, b + 1, o[b].1));
                    assert forall|i: int| 0 <= i < all.len() implies lower::low_exprs(all)[i]
                        == all[i] by {
                        if i != 1 {
                            assert(lower::low_exprs(plain)[i] == lower::low_expr(plain[i]));
                        }
                    }
                    assert(lower::low_exprs(all) =~= all);
                    assert(all[0] == plain[0]);
                }
            }
        },
        Expr::New { callee, arguments } => {
            lemma_put_lowered(o, from, *callee);
            lemma_list_lowered(o, from, arguments);
        },
        Expr::Binary { left, right, .. } => {
            lemma_put_lowered(o, from, *left);
            lemma_put_lowered(o, from, *right);
        },
        Expr::Unary { operand, .. } => lemma_put_lowered(o, from, *operand),
        Expr::Spread(x) => lemma_put_lowered(o, from, *x),
        Expr::Await(x) => lemma_put_lowered(o, from, *x),
        Expr::Yield { value, .. } => lemma_put_lowered(o, from, *value),
        Expr::Member { object, .. } => lemma_put_lowered(o, from, *object),
        Expr::Conditional { condition, then_expr, else_expr } => {
            lemma_put_lowered(o, from, *condition);
            lemma_put_lowered(o, from, *then_expr);
            lemma_put_lowered(o, from, *else_expr);
        },
        Expr::Array { elements } => {
            let t = calls::put_elements(o, from, elements);
            assert forall|i: int| 0 <= i < t.len() implies lower::low_elements(t)[i] == t[i] by {
                assert(lower::low_elements(elements)[i] == lower::low_opt_expr(elements[i]));
                if let Some(x) = elements[i] {
                    lemma_put_lowered(o, from, x);
                }
            }
            assert(lower::low_elements(t) =~= t);
        },
        Expr::Object { properties } => {
            let t = calls::put_props(o, from, properties);
            assert forall|i: int| 0 <= i < t.len() implies lower::low_props(t)[i] == t[i] by {
                assert(lower::low_props(properties)[i] == lower::low_prop(properties[i]));
                lemma_put_lowered(o, from, properties[i].value);
            }
            assert(lower::low_props(t) =~= t);
        },
        Expr::Assignment { target, value } => {
            lemma_put_lowered(o, from, *target);
            lemma_put_lowered(o, from, *value);
        },
        Expr::JSXElement { attributes, children, .. } => {
            let t = calls::put_attrs(o, from, attributes);
            assert forall|i: int| 0 <= i < t.len() implies lower::low_attrs(t)[i] == t[i] by {
                assert(lower::low_attrs(attributes)[i] == lower::low_attr(attributes[i]));
                lemma_put_lowered(o, from, attributes[i].1);
            }
            assert(lower::low_attrs(t) =~= t);
            lemma_list_lowered(o, from, children);
        },
        _ => {},
    }
}

proof fn lemma_list_lowered(o: Seq<(Seq<char>, Expr)>, from: int, s: Seq<Expr>)
    requires
        all_lowered(o),
        lower::low_exprs(s) == s,
    ensures
        lower::low_exprs(calls::put_exprs(o, from, s)) == calls::put_exprs(o, from, s),
    decreases o.len() - from, s,
{
    let t = calls::put_exprs(o, from, s);
    assert forall|i: int| 0 <= i < t.len() implies lower::low_exprs(t)[i] == t[i] by {
        assert(lower::low_exprs(s)[i] == lower::low_expr(s[i]));
        lemma_put_lowered(o, from, s[i]);
    }
    assert(lower::low_exprs(t) =~= t);
}

proof fn lemma_bound_lowered(o: Seq<(Seq<char>, Expr)>, name: Seq<char>, v: Expr)
    requires
        all_lowered(o),
        lower::low_expr(v) == v,
    ensures
        all_lowered(props::bound(o, name, v)),
{
    let w = props::expr_writes(visit::expr_visits(v));
    lemma_without_lowered(o, w);
    lemma_without_lowered(props::without(o, w), seq![name]);
}

proof fn lemma_step_lowered(o: Seq<(Seq<char>, Expr)>, s: Stmt)
    requires
        all_lowered(o),
        lower::low_stmt(s) == s,
    ensures
        ({
            let x = props::step(Calls::Others, o, s);
            lower::low_stmt(x.0) == x.0 && all_lowered(x.1)
        }),
    decreases s, 1nat,
{
    match s {
        Stmt::Let { name, value, .. } => {
            lemma_put_lowered(o, 0, value);
            lemma_bound_lowered(o, name, calls::put(o, 0, value));
        },
        Stmt::Assign { target: Target::Variable(name), value } => {
            lemma_put_lowered(o, 0, value);
            lemma_bound_lowered(o, name, calls::put(o, 0, value));
        },
        _ => {
            let t = props::value_resolved(Calls::Others, o, props::resolved_nested(
                Calls::Others,
                s,
            ));
            match s {
                Stmt::Assign { value, .. } => lemma_put_lowered(o, 0, value),
                Stmt::Expr(e) => lemma_put_lowered(o, 0, e),
                Stmt::Return(Some(e)) => lemma_put_lowered(o, 0, e),
                Stmt::Throw(e) => lemma_put_lowered(o, 0, e),
                _ => lemma_nested_lowered(s),
            }
            lemma_without_lowered(o, props::writes(t));
        },
    }
}

proof fn lemma_run_lowered(s: Seq<Stmt>)
    requires
        lower::low_stmts(s) == s,
    ensures
        lower::low_stmts(props::run(Calls::Others, s).0) == props::run(Calls::Others, s).0,
        all_lowered(props::run(Calls::Others, s).1),
    decreases s, 2nat,
{
    let t = props::run(Calls::Others, s).0;
    if s.len() > 0 {
        let rest = s.drop_last();
        assert forall|i: int| 0 <= i < s.len() implies lower::low_stmt(s[i]) == s[i] by {
            assert(lower::low_stmts(s)[i] == lower::low_stmt(s[i]));
        }
        assert(lower::low_stmts(rest) =~= rest);
        lemma_run_lowered(rest);
        assert(lower::low_stmt(s[s.len() - 1]) == s.last());
        let before = props::run(Calls::Others, rest);
        lemma_step_lowered(before.1, s.last());
        assert forall|i: int| 0 <= i < t.len() implies lower::low_stmts(t)[i] == t[i] by {
            if i < before.0.len() {
                assert(lower::low_stmts(before.0)[i] == lower::low_stmt(before.0[i]));
            }
        }
    }
    assert(lower::low_stmts(t) =~= t);
}

proof fn lemma_nested_lowered(s: Stmt)
    requires
        lower::low_stmt(s) == s,
    ensures
        lower::low_stmt(props::resolved_nested(Calls::Others, s)) == props::resolved_nested(
            Calls::Others,
            s,
        ),
    decreases s, 0nat,
{
    match s {
        Stmt::If { then_body, else_body, .. } => {
            lemma_run_lowered(then_body);
            lemma_run_lowered(else_body);
        },
        Stmt::While { body, .. } => lemma_run_lowered(body),
        Stmt::DoWhile { body, .. } => lemma_run_lowered(body),
        Stmt::For { body, .. } => lemma_run_lowered(body),
        Stmt::ForIn { body, .. } => lemma_run_lowered(body),
        Stmt::ForOf { body, .. } => lemma_run_lowered(body),
        Stmt::Block(body) => lemma_run_lowered(body),
        Stmt::TryCatch { try_body, catch_body, finally_body, .. } => {
            lemma_run_lowered(try_body);
            lemma_run_lowered(catch_body);
            lemma_run_lowered(finally_body);
        },
        Stmt::Switch { cases, default, .. } => {
            let t = props::resolved_nested_cases(Calls::Others, cases);
            assert forall|i: int| 0 <= i < t.len() implies lower::low_cases(t)[i] == t[i] by {
                assert(lower::low_cases(cases)[i] == lower::low_case(cases[i]));
                lemma_run_lowered(cases[i].1);
            }
            assert(lower::low_cases(t) =~= t);
            if let Some(body) = default {
                lemma_run_lowered(body);
            }
        },
        _ => {},
    }
}

/// Putting literals into calls that stay calls makes no call that lowering changes.
pub proof fn lemma_calls_stay_lowered(s: Seq<Stmt>)
    requires
        lower::low_stmts(s) == s,
    ensures
        lower::low_stmts(props::resolved(Calls::Others, s)) == props::resolved(Calls::Others, s),
{
    lemma_run_lowered(s);
}

} // verus!
